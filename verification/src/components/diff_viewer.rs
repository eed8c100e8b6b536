//! The full diff view of one commit.
use vstd::prelude::*;
use crate::parser::{ChangeStatus, FileChange};
use crate::text::str_eq;
use crate::updater::string_of_str;

verus! {

/// Heading shown for a file's status.
pub open spec fn status_heading(s: ChangeStatus) -> Seq<char> {
    match s {
        ChangeStatus::Added => "ADDED"@,
        ChangeStatus::Modified => "MODIFIED"@,
        ChangeStatus::Deleted => "DELETED"@,
        ChangeStatus::Renamed => "RENAMED"@,
    }
}

/// Style class of a file's status.
pub open spec fn status_style(s: ChangeStatus) -> Seq<char> {
    match s {
        ChangeStatus::Added => "added"@,
        ChangeStatus::Modified => "modified"@,
        ChangeStatus::Deleted => "deleted"@,
        ChangeStatus::Renamed => "renamed"@,
    }
}

/// Style class of a diff line's origin.
pub open spec fn origin_style(c: char) -> Seq<char> {
    if c == '+' {
        "add"@
    } else if c == '-' {
        "del"@
    } else {
        "ctx"@
    }
}

/// Upper-case label of a file's status.
pub fn status_label(s: &ChangeStatus) -> (r: &'static str)
    ensures
        r@ == status_heading(*s),
{
    match s {
        ChangeStatus::Added => "ADDED",
        ChangeStatus::Modified => "MODIFIED",
        ChangeStatus::Deleted => "DELETED",
        ChangeStatus::Renamed => "RENAMED",
    }
}

/// Style class of a file's status.
pub fn status_class(s: &ChangeStatus) -> (r: &'static str)
    ensures
        r@ == status_style(*s),
{
    match s {
        ChangeStatus::Added => "added",
        ChangeStatus::Modified => "modified",
        ChangeStatus::Deleted => "deleted",
        ChangeStatus::Renamed => "renamed",
    }
}

/// Style class of a diff line: `add`, `del` or `ctx`.
pub fn origin_class(c: char) -> (r: &'static str)
    ensures
        r@ == origin_style(c),
{
    if c == '+' {
        "add"
    } else if c == '-' {
        "del"
    } else {
        "ctx"
    }
}

/// Sum of the added lines of `fs`.
pub open spec fn added_total(fs: Seq<FileChange>) -> nat
    decreases fs.len(),
{
    if fs.len() == 0 {
        0
    } else {
        added_total(fs.drop_last()) + fs.last().additions as nat
    }
}

/// Sum of the removed lines of `fs`.
pub open spec fn removed_total(fs: Seq<FileChange>) -> nat
    decreases fs.len(),
{
    if fs.len() == 0 {
        0
    } else {
        removed_total(fs.drop_last()) + fs.last().deletions as nat
    }
}

proof fn lemma_totals_monotone(fs: Seq<FileChange>, i: int)
    requires
        0 <= i <= fs.len(),
    ensures
        added_total(fs.take(i)) <= added_total(fs),
        removed_total(fs.take(i)) <= removed_total(fs),
    decreases fs.len() - i,
{
    if i < fs.len() {
        lemma_totals_monotone(fs, i + 1);
        assert(fs.take(i + 1).drop_last() =~= fs.take(i));
    } else {
        assert(fs.take(i) =~= fs);
    }
}

/// The totals of a single file are exactly its own counts.
pub proof fn lemma_totals_of_one_file(f: FileChange)
    ensures
        added_total(seq![f]) == f.additions,
        removed_total(seq![f]) == f.deletions,
{
    let one = seq![f];
    assert(one.drop_last() =~= Seq::<FileChange>::empty());
    assert(one.last() == f);
    assert(added_total(Seq::<FileChange>::empty()) == 0);
    assert(removed_total(Seq::<FileChange>::empty()) == 0);
}

/// The totals of two lists of files together are the sums of their totals:
/// every file counts once, in full.
pub proof fn lemma_totals_add_up(a: Seq<FileChange>, b: Seq<FileChange>)
    ensures
        added_total(a + b) == added_total(a) + added_total(b),
        removed_total(a + b) == removed_total(a) + removed_total(b),
    decreases b.len(),
{
    if b.len() == 0 {
        assert(a + b =~= a);
    } else {
        lemma_totals_add_up(a, b.drop_last());
        assert((a + b).drop_last() =~= a + b.drop_last());
        assert((a + b).last() == b.last());
    }
}

/// Lines added and removed over all files of a commit.
pub fn diff_totals(files: &Vec<FileChange>) -> (r: (usize, usize))
    requires
        added_total(files@) <= usize::MAX,
        removed_total(files@) <= usize::MAX,
    ensures
        r.0 == added_total(files@),
        r.1 == removed_total(files@),
{
    let mut adds: usize = 0;
    let mut dels: usize = 0;
    let mut i: usize = 0;
    while i < files.len()
        invariant
            i <= files@.len(),
            added_total(files@) <= usize::MAX,
            removed_total(files@) <= usize::MAX,
            adds == added_total(files@.take(i as int)),
            dels == removed_total(files@.take(i as int)),
        decreases files@.len() - i,
    {
        proof {
            lemma_totals_monotone(files@, i + 1);
            assert(files@.take(i + 1).drop_last() =~= files@.take(i as int));
        }
        adds = adds + files[i].additions;
        dels = dels + files[i].deletions;
        i += 1;
    }
    assert(files@.take(files@.len() as int) =~= files@);
    (adds, dels)
}


// ── Folded files ────────────────────────────────────────────────────────────

/// The files whose diff lines are folded away, by path.
#[derive(Debug)]
pub struct Collapsed {
    paths: Vec<String>,
}

/// The paths listed in `v`, as a set.
pub open spec fn path_set(v: Seq<String>) -> Set<Seq<char>> {
    Set::new(|p: Seq<char>| exists|i: int| 0 <= i < v.len() && #[trigger] v[i]@ == p)
}

/// `s` with `p` added when it is missing and removed when it is there.
pub open spec fn toggled(s: Set<Seq<char>>, p: Seq<char>) -> Set<Seq<char>> {
    if s.contains(p) {
        s.remove(p)
    } else {
        s.insert(p)
    }
}

/// The paths of the changed files `fs`, as a set.
pub open spec fn file_paths(fs: Seq<FileChange>) -> Set<Seq<char>> {
    Set::new(|p: Seq<char>| exists|i: int| 0 <= i < fs.len() && #[trigger] fs[i].path@ == p)
}

impl View for Collapsed {
    type V = Set<Seq<char>>;

    closed spec fn view(&self) -> Set<Seq<char>> {
        path_set(self.paths@)
    }
}

impl Collapsed {
    /// Nothing folded.
    pub fn new() -> (c: Collapsed)
        ensures
            c@ == Set::<Seq<char>>::empty(),
    {
        let c = Collapsed { paths: Vec::new() };
        assert(c@ =~= Set::<Seq<char>>::empty());
        c
    }

    /// Whether the file at `path` is folded.
    pub fn is_collapsed(&self, path: &str) -> (b: bool)
        ensures
            b == self@.contains(path@),
    {
        let mut i: usize = 0;
        while i < self.paths.len()
            invariant
                i <= self.paths@.len(),
                forall|j: int| 0 <= j < i ==> self.paths@[j]@ != path@,
            decreases self.paths@.len() - i,
        {
            if str_eq(self.paths[i].as_str(), path) {
                assert(path_set(self.paths@).contains(path@)) by {
                    assert(self.paths@[i as int]@ == path@);
                }
                return true;
            }
            i += 1;
        }
        false
    }

    /// Folds the file at `path` when it is shown and shows it when folded.
    pub fn toggle(&mut self, path: &str)
        ensures
            final(self)@ == toggled(old(self)@, path@),
    {
        if self.is_collapsed(path) {
            let mut kept: Vec<String> = Vec::new();
            let mut i: usize = 0;
            while i < self.paths.len()
                invariant
                    i <= self.paths@.len(),
                    forall|q: Seq<char>| path_set(kept@).contains(q) <==> (q != path@ && exists|j: int| 0 <= j < i && #[trigger] self.paths@[j]@ == q),
                decreases self.paths@.len() - i,
            {
                if !str_eq(self.paths[i].as_str(), path) {
                    let ghost before = kept@;
                    kept.push(self.paths[i].clone());
                    proof {
                        assert forall|q: Seq<char>| path_set(kept@).contains(q) <==> (q != path@ && exists|j: int| 0 <= j < i + 1 && #[trigger] self.paths@[j]@ == q) by {
                            if path_set(kept@).contains(q) {
                                let k = choose|k: int| 0 <= k < kept@.len() && #[trigger] kept@[k]@ == q;
                                if k < before.len() {
                                    assert(before[k] == kept@[k]);
                                    assert(path_set(before).contains(q));
                                }
                            }
                            if q != path@ && exists|j: int| 0 <= j < i + 1 && #[trigger] self.paths@[j]@ == q {
                                let j = choose|j: int| 0 <= j < i + 1 && #[trigger] self.paths@[j]@ == q;
                                if j < i {
                                    assert(path_set(before).contains(q));
                                    let k = choose|k: int| 0 <= k < before.len() && #[trigger] before[k]@ == q;
                                    assert(kept@[k] == before[k]);
                                } else {
                                    assert(kept@[before.len() as int]@ == q);
                                }
                            }
                        }
                    }
                } else {
                    proof {
                        assert forall|q: Seq<char>| path_set(kept@).contains(q) <==> (q != path@ && exists|j: int| 0 <= j < i + 1 && #[trigger] self.paths@[j]@ == q) by {
                            if q != path@ && exists|j: int| 0 <= j < i + 1 && #[trigger] self.paths@[j]@ == q {
                                let j = choose|j: int| 0 <= j < i + 1 && #[trigger] self.paths@[j]@ == q;
                                assert(j < i);
                            }
                        }
                    }
                }
                i += 1;
            }
            let ghost old_set = self@;
            self.paths = kept;
            assert(self@ =~= old_set.remove(path@));
        } else {
            let ghost old_paths = self.paths@;
            self.paths.push(string_of_str(path));
            proof {
                assert forall|q: Seq<char>| path_set(self.paths@).contains(q) <==> path_set(old_paths).insert(path@).contains(q) by {
                    if path_set(old_paths).contains(q) {
                        let k = choose|k: int| 0 <= k < old_paths.len() && #[trigger] old_paths[k]@ == q;
                        assert(self.paths@[k] == old_paths[k]);
                    }
                    if q == path@ {
                        assert(self.paths@[old_paths.len() as int]@ == q);
                    }
                    if path_set(self.paths@).contains(q) {
                        let k = choose|k: int| 0 <= k < self.paths@.len() && #[trigger] self.paths@[k]@ == q;
                        if k < old_paths.len() {
                            assert(self.paths@[k] == old_paths[k]);
                        }
                    }
                }
                assert(path_set(self.paths@) =~= path_set(old_paths).insert(path@));
            }
        }
    }

    /// Folds every one of `files`.
    pub fn collapse_all(&mut self, files: &Vec<FileChange>)
        ensures
            final(self)@ == file_paths(files@),
    {
        let mut paths: Vec<String> = Vec::new();
        let mut i: usize = 0;
        while i < files.len()
            invariant
                i <= files@.len(),
                paths@.len() == i,
                forall|j: int| 0 <= j < i ==> #[trigger] paths@[j]@ == files@[j].path@,
            decreases files@.len() - i,
        {
            paths.push(files[i].path.clone());
            i += 1;
        }
        self.paths = paths;
        proof {
            assert forall|q: Seq<char>| path_set(self.paths@).contains(q) <==> file_paths(files@).contains(q) by {
                if path_set(self.paths@).contains(q) {
                    let k = choose|k: int| 0 <= k < self.paths@.len() && #[trigger] self.paths@[k]@ == q;
                    assert(files@[k].path@ == q);
                }
                if file_paths(files@).contains(q) {
                    let k = choose|k: int| 0 <= k < files@.len() && #[trigger] files@[k].path@ == q;
                    assert(self.paths@[k]@ == q);
                }
            }
            assert(path_set(self.paths@) =~= file_paths(files@));
        }
    }

    /// Shows every file.
    pub fn expand_all(&mut self)
        ensures
            final(self)@ == Set::<Seq<char>>::empty(),
    {
        self.paths = Vec::new();
        assert(self@ =~= Set::<Seq<char>>::empty());
    }
}

/// Folding a file and then showing it again (or the other way round)
/// leaves the folded files as they were.
pub proof fn lemma_toggle_twice(s: Set<Seq<char>>, p: Seq<char>)
    ensures
        toggled(toggled(s, p), p) == s,
{
    if s.contains(p) {
        assert(s.remove(p).insert(p) =~= s);
    } else {
        assert(s.insert(p).remove(p) =~= s);
    }
}

} // verus!
