//! Repository history as tree data: commits with their diffs, and the branch
//! lines drawn between them.
use vstd::prelude::*;
use crate::text::{chars_of, push_all, string_of_range};
use crate::updater::string_of_str;

verus! {

// ── Data ────────────────────────────────────────────────────────────────────

/// A single line in a diff hunk.
#[derive(Debug, Clone, PartialEq)]
pub struct DiffLine {
    /// `'+'` added, `'-'` removed, `' '` context.
    pub origin: char,
    pub content: String,
}

/// How a file changed in a commit.
#[derive(Debug, Clone, Copy, PartialEq, Eq)]
pub enum ChangeStatus {
    Added,
    Modified,
    Deleted,
    Renamed,
}

/// A single file changed in a commit.
#[derive(Debug, Clone, PartialEq)]
pub struct FileChange {
    pub path: String,
    pub additions: usize,
    pub deletions: usize,
    pub status: ChangeStatus,
    /// Diff lines, capped per file and per commit.
    pub lines: Vec<DiffLine>,
}

/// Summary diff statistics of a commit.
#[derive(Debug, Clone, Copy, PartialEq, Eq, Default)]
pub struct DiffStats {
    pub files_changed: usize,
    pub insertions: usize,
    pub deletions: usize,
}

/// Side of the main line a branch line is drawn on.
#[derive(Debug, Clone, Copy, PartialEq, Eq)]
pub enum BranchDirection {
    Up,
    Down,
}

/// A branch line in the drawn tree.
#[derive(Debug, Clone, PartialEq)]
pub struct BranchLine {
    pub name: String,
    pub commits: Vec<String>,
    pub color: String,
    pub direction: BranchDirection,
    pub parent_hash: String,
    pub merge_hash: Option<String>,
}

/// One commit of the history.
#[derive(Debug, Clone, PartialEq)]
pub struct CommitNode {
    pub hash: String,
    pub short_hash: String,
    /// First line of the message.
    pub message: String,
    pub full_message: String,
    pub author_name: String,
    pub author_email: String,
    /// Commit time, seconds since the Unix epoch (UTC).
    pub timestamp: i64,
    pub branch_name: Option<String>,
    pub color: String,
    pub parent_hashes: Vec<String>,
    pub is_merge: bool,
    pub is_head: bool,
    pub tags: Vec<String>,
    pub files_changed: Vec<FileChange>,
    pub stats: DiffStats,
}

/// The whole parsed repository, ready to draw.
#[derive(Debug, Clone, PartialEq)]
pub struct RepoTree {
    pub commits: Vec<CommitNode>,
    pub branches: Vec<BranchLine>,
    pub main_branch: Vec<String>,
    pub repo_name: String,
    pub remote_url: Option<String>,
    pub total_contributors: usize,
}

// ── Views ───────────────────────────────────────────────────────────────────

/// The texts of a list of strings.
pub open spec fn texts(v: Seq<String>) -> Seq<Seq<char>> {
    v.map_values(|s: String| s@)
}

/// The text of an optional string.
pub open spec fn opt_text(o: Option<String>) -> Option<Seq<char>> {
    match o {
        Some(s) => Some(s@),
        None => None,
    }
}

/// A branch line as plain values.
#[verifier::ext_equal]
pub struct BranchLineModel {
    pub name: Seq<char>,
    pub commits: Seq<Seq<char>>,
    pub color: Seq<char>,
    pub direction: BranchDirection,
    pub parent_hash: Seq<char>,
    pub merge_hash: Option<Seq<char>>,
}

impl View for BranchLine {
    type V = BranchLineModel;

    open spec fn view(&self) -> BranchLineModel {
        BranchLineModel {
            name: self.name@,
            commits: texts(self.commits@),
            color: self.color@,
            direction: self.direction,
            parent_hash: self.parent_hash@,
            merge_hash: opt_text(self.merge_hash),
        }
    }
}

/// The views of a list of branch lines.
pub open spec fn branch_models(v: Seq<BranchLine>) -> Seq<BranchLineModel> {
    v.map_values(|b: BranchLine| b@)
}

// ── Branch lines ────────────────────────────────────────────────────────────

/// `"main"`
pub open spec fn main_name() -> Seq<char> {
    seq!['m', 'a', 'i', 'n']
}

/// `"branch-"`
pub open spec fn branch_prefix() -> Seq<char> {
    seq!['b', 'r', 'a', 'n', 'c', 'h', '-']
}

/// Colour of the main line.
pub open spec fn main_color() -> Seq<char> {
    seq!['#', '9', 'B', '5', 'D', 'E', '5']
}

/// Hashes of the commits with at most one parent, in order.
pub open spec fn main_line_hashes(cs: Seq<CommitNode>) -> Seq<Seq<char>>
    decreases cs.len(),
{
    if cs.len() == 0 {
        Seq::empty()
    } else if cs.last().parent_hashes@.len() <= 1 {
        main_line_hashes(cs.drop_last()).push(cs.last().hash@)
    } else {
        main_line_hashes(cs.drop_last())
    }
}

/// The line of one merge commit, drawn in direction `dir`.
pub open spec fn merge_line(c: CommitNode, dir: BranchDirection) -> BranchLineModel {
    BranchLineModel {
        name: branch_prefix() + c.short_hash@,
        commits: seq![c.hash@],
        color: c.color@,
        direction: dir,
        parent_hash: if c.parent_hashes@.len() > 0 {
            c.parent_hashes@[0]@
        } else {
            Seq::empty()
        },
        merge_hash: Some(c.hash@),
    }
}

/// Direction of the `k`-th merge line: up, down, up, …
pub open spec fn nth_direction(k: nat) -> BranchDirection {
    if k % 2 == 0 {
        BranchDirection::Up
    } else {
        BranchDirection::Down
    }
}

/// One line per merge commit, in order, alternating up and down.
pub open spec fn merge_lines(cs: Seq<CommitNode>) -> Seq<BranchLineModel>
    decreases cs.len(),
{
    if cs.len() == 0 {
        Seq::empty()
    } else if cs.last().is_merge {
        let before = merge_lines(cs.drop_last());
        before.push(merge_line(cs.last(), nth_direction(before.len())))
    } else {
        merge_lines(cs.drop_last())
    }
}

/// All branch lines of a history: the main line (when it has commits), then
/// one line per merge commit.
pub open spec fn branch_lines_of(cs: Seq<CommitNode>) -> Seq<BranchLineModel> {
    if cs.len() == 0 {
        Seq::empty()
    } else {
        let main = main_line_hashes(cs);
        let head = if main.len() > 0 {
            seq![
                BranchLineModel {
                    name: main_name(),
                    commits: main,
                    color: main_color(),
                    direction: BranchDirection::Up,
                    parent_hash: Seq::empty(),
                    merge_hash: None,
                },
            ]
        } else {
            Seq::empty()
        };
        head + merge_lines(cs)
    }
}

/// Number of merge commits in `cs`.
pub open spec fn merge_count(cs: Seq<CommitNode>) -> nat
    decreases cs.len(),
{
    if cs.len() == 0 {
        0
    } else {
        merge_count(cs.drop_last()) + if cs.last().is_merge {
            1nat
        } else {
            0nat
        }
    }
}

/// There is one merge line per merge commit, and the `k`-th one is drawn up
/// for even `k`, down for odd `k`.
pub proof fn lemma_merge_lines_alternate(cs: Seq<CommitNode>)
    ensures
        merge_lines(cs).len() == merge_count(cs),
        forall|k: int| 0 <= k < merge_lines(cs).len() ==> (#[trigger] merge_lines(cs)[k]).direction
            == nth_direction(k as nat),
    decreases cs.len(),
{
    if cs.len() > 0 {
        lemma_merge_lines_alternate(cs.drop_last());
    }
}

/// When the merge flag of every commit says whether it has several parents
/// (as for every built commit), each commit lies on exactly one branch line:
/// the main line holds the others, one merge line holds each merge.
pub proof fn lemma_lines_partition_commits(cs: Seq<CommitNode>)
    requires
        forall|i: int| 0 <= i < cs.len() ==> (#[trigger] cs[i]).is_merge == (cs[i].parent_hashes@.len() > 1),
    ensures
        main_line_hashes(cs).len() + merge_lines(cs).len() == cs.len(),
    decreases cs.len(),
{
    if cs.len() > 0 {
        assert forall|i: int| 0 <= i < cs.drop_last().len() implies (#[trigger] cs.drop_last()[i]).is_merge == (
        cs.drop_last()[i].parent_hashes@.len() > 1) by {
            assert(cs.drop_last()[i] == cs[i]);
        }
        lemma_lines_partition_commits(cs.drop_last());
        assert(cs.last() == cs[cs.len() - 1]);
    }
}

/// A list of owned copies of `v`.
pub fn copy_strings(v: &Vec<String>) -> (r: Vec<String>)
    ensures
        r@ == v@,
{
    let mut r: Vec<String> = Vec::new();
    let mut i: usize = 0;
    while i < v.len()
        invariant
            i <= v@.len(),
            r@ == v@.take(i as int),
        decreases v@.len() - i,
    {
        r.push(v[i].clone());
        assert(v@.take(i + 1) =~= v@.take(i as int).push(v@[i as int]));
        i += 1;
    }
    assert(v@.take(v@.len() as int) =~= v@);
    r
}

/// The branch lines of a history: a main line holding every commit with at
/// most one parent, then, for each merge commit in order, a line of its own
/// named `branch-<short hash>`, alternately drawn up and down.
pub fn build_branch_lines(commits: &[CommitNode]) -> (r: Vec<BranchLine>)
    ensures
        branch_models(r@) == branch_lines_of(commits@),
{
    let mut lines: Vec<BranchLine> = Vec::new();
    if commits.len() == 0 {
        assert(branch_models(lines@) =~= Seq::<BranchLineModel>::empty());
        return lines;
    }
    let mut main: Vec<String> = Vec::new();
    let mut i: usize = 0;
    while i < commits.len()
        invariant
            i <= commits@.len(),
            texts(main@) == main_line_hashes(commits@.take(i as int)),
        decreases commits@.len() - i,
    {
        assert(commits@.take(i + 1).drop_last() =~= commits@.take(i as int));
        assert(commits@.take(i + 1).last() == commits@[i as int]);
        if commits[i].parent_hashes.len() <= 1 {
            main.push(commits[i].hash.clone());
            assert(texts(main@) =~= texts(main@.drop_last()).push(commits@[i as int].hash@));
        }
        i += 1;
    }
    assert(commits@.take(commits@.len() as int) =~= commits@);
    let ghost main_model = texts(main@);
    if main.len() > 0 {
        let nv = vec!['m', 'a', 'i', 'n'];
        let cv = vec!['#', '9', 'B', '5', 'D', 'E', '5'];
        lines.push(
            BranchLine {
                name: string_of_range(nv.as_slice(), 0, 4),
                commits: main,
                color: string_of_range(cv.as_slice(), 0, 7),
                direction: BranchDirection::Up,
                parent_hash: String::new(),
                merge_hash: None,
            },
        );
        assert(nv@.subrange(0, 4) =~= main_name());
        assert(cv@.subrange(0, 7) =~= main_color());
    }
    let ghost head = branch_models(lines@);
    assert(head == branch_lines_of(commits@).take(head.len() as int)) by {
        assert(branch_lines_of(commits@).take(head.len() as int) =~= head);
    }
    let mut up = true;
    let mut j: usize = 0;
    assert(merge_lines(commits@.take(0)) =~= Seq::<BranchLineModel>::empty());
    assert(head + Seq::<BranchLineModel>::empty() =~= head);
    while j < commits.len()
        invariant
            j <= commits@.len(),
            branch_models(lines@) == head + merge_lines(commits@.take(j as int)),
            up == (merge_lines(commits@.take(j as int)).len() % 2 == 0),
        decreases commits@.len() - j,
    {
        let c = &commits[j];
        assert(commits@.take(j + 1).drop_last() =~= commits@.take(j as int));
        assert(commits@.take(j + 1).last() == commits@[j as int]);
        if c.is_merge {
            let dir = if up { BranchDirection::Up } else { BranchDirection::Down };
            up = !up;
            let mut name = String::new();
            let prefix = vec!['b', 'r', 'a', 'n', 'c', 'h', '-'];
            push_all(&mut name, prefix.as_slice());
            let sh = chars_of(c.short_hash.as_str());
            push_all(&mut name, sh.as_slice());
            let parent = if c.parent_hashes.len() > 0 {
                c.parent_hashes[0].clone()
            } else {
                String::new()
            };
            let mut hashes: Vec<String> = Vec::new();
            hashes.push(c.hash.clone());
            let line = BranchLine {
                name,
                commits: hashes,
                color: c.color.clone(),
                direction: dir,
                parent_hash: parent,
                merge_hash: Some(c.hash.clone()),
            };
            let ghost before = merge_lines(commits@.take(j as int));
            let ghost old_lines = lines@;
            assert(prefix@ == branch_prefix());
            assert(line.name@ =~= branch_prefix() + commits@[j as int].short_hash@);
            assert(texts(line.commits@) =~= seq![commits@[j as int].hash@]);
            assert(dir == nth_direction(before.len()));
            assert(line@ =~= merge_line(commits@[j as int], nth_direction(before.len())));
            lines.push(line);
            assert(lines@ == old_lines.push(line));
            assert(branch_models(lines@) =~= branch_models(old_lines).push(line@));
            assert(merge_lines(commits@.take(j + 1)) == before.push(line@));
            assert(branch_models(lines@) =~= head + merge_lines(commits@.take(j + 1)));
        }
        j += 1;
    }
    assert(commits@.take(commits@.len() as int) =~= commits@);
    lines
}

// ── Reading diffs ───────────────────────────────────────────────────────────

/// Most diff lines kept for one file.
pub const MAX_LINES_PER_FILE: usize = 80;

/// Most diff lines kept for one commit, over all its files.
pub const MAX_LINES_PER_COMMIT: usize = 300;

/// How git classifies a changed file (the variants of a git delta).
#[derive(Debug, Clone, Copy, PartialEq, Eq)]
pub enum DeltaKind {
    Unmodified,
    Added,
    Deleted,
    Modified,
    Renamed,
    Copied,
    Ignored,
    Untracked,
    Typechange,
    Unreadable,
    Conflicted,
}

/// A path as git reports it for one side of a delta.
#[derive(Debug, Clone, PartialEq)]
pub enum RawPath {
    /// No file on this side.
    Absent,
    /// A path that is not valid UTF-8.
    NotUtf8,
    Text(String),
}

/// One line of a diff hunk as git reports it.
#[derive(Debug, Clone, PartialEq)]
pub struct RawLine {
    pub origin: char,
    pub content: Vec<u8>,
}

/// One changed file of a commit as git reports it.
#[derive(Debug, Clone, PartialEq)]
pub struct RawDelta {
    pub new_path: RawPath,
    pub old_path: RawPath,
    pub kind: DeltaKind,
    /// The hunks of the file's patch, each a list of lines; `None` when git
    /// gives no patch (binary files).
    pub hunks: Option<Vec<Vec<RawLine>>>,
}

/// A diff line as plain values: origin and text.
pub open spec fn line_model(l: DiffLine) -> (char, Seq<char>) {
    (l.origin, l.content@)
}

/// A changed file as plain values.
#[verifier::ext_equal]
pub struct FileChangeModel {
    pub path: Seq<char>,
    pub additions: nat,
    pub deletions: nat,
    pub status: ChangeStatus,
    pub lines: Seq<(char, Seq<char>)>,
}

impl View for FileChange {
    type V = FileChangeModel;

    open spec fn view(&self) -> FileChangeModel {
        FileChangeModel {
            path: self.path@,
            additions: self.additions as nat,
            deletions: self.deletions as nat,
            status: self.status,
            lines: self.lines@.map_values(|l: DiffLine| line_model(l)),
        }
    }
}

/// The views of a list of changed files.
pub open spec fn change_models(v: Seq<FileChange>) -> Seq<FileChangeModel> {
    v.map_values(|f: FileChange| f@)
}

/// `"unknown"`
pub open spec fn unknown_path() -> Seq<char> {
    seq!['u', 'n', 'k', 'n', 'o', 'w', 'n']
}

/// Path shown for a changed file: the new path, else the old one, else
/// `"unknown"`; a chosen path that is not UTF-8 also shows as `"unknown"`.
pub open spec fn delta_path(d: RawDelta) -> Seq<char> {
    match d.new_path {
        RawPath::Text(s) => s@,
        RawPath::NotUtf8 => unknown_path(),
        RawPath::Absent => match d.old_path {
            RawPath::Text(s) => s@,
            _ => unknown_path(),
        },
    }
}

/// Status shown for a git delta: added, deleted and renamed files as such,
/// everything else as modified.
pub open spec fn status_of(k: DeltaKind) -> ChangeStatus {
    match k {
        DeltaKind::Added => ChangeStatus::Added,
        DeltaKind::Deleted => ChangeStatus::Deleted,
        DeltaKind::Renamed => ChangeStatus::Renamed,
        _ => ChangeStatus::Modified,
    }
}

/// Text of a diff line: its bytes as UTF-8 (empty when not valid UTF-8)
/// without trailing `'\n'`s and then trailing `'\r'`s.
pub open spec fn line_text(bytes: Seq<u8>) -> Seq<char> {
    if vstd::utf8::valid_utf8(bytes) {
        crate::text::trim_end_char(crate::text::trim_end_char(vstd::utf8::decode_utf8(bytes), '\n'), '\r')
    } else {
        Seq::empty()
    }
}

/// The lines of all hunks, one after the other.
pub open spec fn flatten(hunks: Seq<Vec<RawLine>>) -> Seq<RawLine>
    decreases hunks.len(),
{
    if hunks.len() == 0 {
        Seq::empty()
    } else {
        hunks[0]@ + flatten(hunks.drop_first())
    }
}

/// A line that is stored (added, removed or context).
pub open spec fn storable(o: char) -> bool {
    o == '+' || o == '-' || o == ' '
}

/// What reading one file's diff lines gives.
#[verifier::ext_equal]
pub struct Scan {
    pub additions: nat,
    pub deletions: nat,
    pub lines: Seq<(char, Seq<char>)>,
    /// Lines stored for the commit so far, this file included.
    pub total: nat,
}

/// Reads the diff lines `ls` of a file of which `stored` lines are kept
/// already, `total` for the whole commit: added and removed lines are
/// counted; stored lines are kept while the file holds fewer than 80 and the
/// commit fewer than 300, and the first stored line past a cap ends the read
/// (it is still counted).
pub open spec fn scan_lines(ls: Seq<RawLine>, stored: nat, total: nat) -> Scan
    decreases ls.len(),
{
    if ls.len() == 0 {
        Scan { additions: 0, deletions: 0, lines: Seq::empty(), total }
    } else {
        let l = ls[0];
        if !storable(l.origin) {
            scan_lines(ls.drop_first(), stored, total)
        } else {
            let a: nat = if l.origin == '+' { 1 } else { 0 };
            let d: nat = if l.origin == '-' { 1 } else { 0 };
            if stored < MAX_LINES_PER_FILE && total < MAX_LINES_PER_COMMIT {
                let r = scan_lines(ls.drop_first(), stored + 1, total + 1);
                Scan {
                    additions: a + r.additions,
                    deletions: d + r.deletions,
                    lines: seq![(l.origin, line_text(l.content@))] + r.lines,
                    total: r.total,
                }
            } else {
                Scan { additions: a, deletions: d, lines: Seq::empty(), total }
            }
        }
    }
}

/// Reading the diff of one changed file when `total` lines are stored for
/// the commit already: nothing is read once the commit holds 300 lines or
/// when the file has no patch.
pub open spec fn scan_delta(d: RawDelta, total: nat) -> Scan {
    match d.hunks {
        Some(hs) => if total < MAX_LINES_PER_COMMIT {
            scan_lines(flatten(hs@), 0, total)
        } else {
            Scan { additions: 0, deletions: 0, lines: Seq::empty(), total }
        },
        None => Scan { additions: 0, deletions: 0, lines: Seq::empty(), total },
    }
}

/// The changed files of a commit, read in order with the commit-wide cap
/// starting from `total` stored lines.
pub open spec fn changes_from(ds: Seq<RawDelta>, total: nat) -> Seq<FileChangeModel>
    decreases ds.len(),
{
    if ds.len() == 0 {
        Seq::empty()
    } else {
        let r = scan_delta(ds[0], total);
        seq![
            FileChangeModel {
                path: delta_path(ds[0]),
                additions: r.additions,
                deletions: r.deletions,
                status: status_of(ds[0].kind),
                lines: r.lines,
            },
        ] + changes_from(ds.drop_first(), r.total)
    }
}

/// Number of lines in all hunks of all deltas.
pub open spec fn delta_lines(ds: Seq<RawDelta>) -> nat
    decreases ds.len(),
{
    if ds.len() == 0 {
        0
    } else {
        delta_lines(ds.drop_first()) + match ds[0].hunks {
            Some(hs) => flatten(hs@).len(),
            None => 0,
        }
    }
}

/// Sum of the left scan and the rest.
pub open spec fn then_scan(acc: Scan, r: Scan) -> Scan {
    Scan {
        additions: acc.additions + r.additions,
        deletions: acc.deletions + r.deletions,
        lines: acc.lines + r.lines,
        total: r.total,
    }
}

proof fn lemma_scan_bounds(ls: Seq<RawLine>, stored: nat, total: nat)
    ensures
        scan_lines(ls, stored, total).additions + scan_lines(ls, stored, total).deletions <= ls.len(),
        total <= scan_lines(ls, stored, total).total,
        scan_lines(ls, stored, total).lines.len() == scan_lines(ls, stored, total).total - total,
        total <= MAX_LINES_PER_COMMIT ==> scan_lines(ls, stored, total).total <= MAX_LINES_PER_COMMIT,
        stored <= MAX_LINES_PER_FILE ==> scan_lines(ls, stored, total).lines.len() + stored <= MAX_LINES_PER_FILE,
    decreases ls.len(),
{
    if ls.len() > 0 {
        lemma_scan_bounds(ls.drop_first(), stored, total);
        lemma_scan_bounds(ls.drop_first(), stored + 1, total + 1);
    }
}

/// A line's text (see `line_text`).
fn line_content(bytes: &[u8]) -> (s: String)
    ensures
        s@ == line_text(bytes@),
{
    match utf8_str(bytes) {
        Some(text) => {
            proof {
                vstd::utf8::encode_utf8_decode_utf8(text@);
            }
            let v = chars_of(text);
            let n1 = crate::text::trim_end_char_len(v.as_slice(), v.len(), '\n');
            let n = crate::text::trim_end_char_len(v.as_slice(), n1, '\r');
            proof {
                assert(v@.take(v@.len() as int) == v@);
                assert(v@.take(n1 as int).take(n as int) == v@.take(n as int));
            }
            string_of_range(v.as_slice(), 0, n)
        },
        None => String::new(),
    }
}

/// `std::str::from_utf8`: `Some` exactly when `bytes` are valid UTF-8, and
/// then a string with exactly those bytes.
#[verifier::external_body]
fn utf8_str(bytes: &[u8]) -> (r: Option<&str>)
    ensures
        match r {
            Some(s) => vstd::utf8::valid_utf8(bytes@) && vstd::utf8::encode_utf8(s@) == bytes@,
            None => !vstd::utf8::valid_utf8(bytes@),
        },
{
    std::str::from_utf8(bytes).ok()
}

proof fn lemma_flatten_step(hs: Seq<Vec<RawLine>>, h: int)
    requires
        0 <= h < hs.len(),
    ensures
        flatten(hs.skip(h)) == hs[h]@ + flatten(hs.skip(h + 1)),
{
    assert(hs.skip(h).drop_first() =~= hs.skip(h + 1));
    assert(hs.skip(h)[0] == hs[h]);
}

/// Reads one file's diff lines (see `scan_lines`), starting with `total`
/// lines stored for the commit.
fn scan_hunks(hunks: &Vec<Vec<RawLine>>, total: usize) -> (r: (usize, usize, Vec<DiffLine>, usize))
    requires
        total <= MAX_LINES_PER_COMMIT,
        flatten(hunks@).len() <= usize::MAX,
    ensures
        ({
            let s = scan_lines(flatten(hunks@), 0, total as nat);
            r.0 == s.additions && r.1 == s.deletions && r.2@.map_values(|l: DiffLine| line_model(l))
                == s.lines && r.3 == s.total
        }),
{
    let ghost all = flatten(hunks@);
    let mut adds: usize = 0;
    let mut dels: usize = 0;
    let mut lines: Vec<DiffLine> = Vec::new();
    let mut tot = total;
    let mut h: usize = 0;
    let ghost mut seen: nat = 0;
    assert(hunks@.skip(0) =~= hunks@);
    assert(lines@.map_values(|l: DiffLine| line_model(l)) =~= Seq::<(char, Seq<char>)>::empty());
    assert(then_scan(Scan { additions: 0, deletions: 0, lines: Seq::empty(), total: total as nat }, scan_lines(all, 0, total as nat)) =~= scan_lines(all, 0, total as nat));
    while h < hunks.len()
        invariant
            h <= hunks@.len(),
            all == flatten(hunks@),
            all.len() <= usize::MAX,
            seen + flatten(hunks@.skip(h as int)).len() == all.len(),
            adds + dels <= seen,
            tot <= MAX_LINES_PER_COMMIT,
            lines@.len() <= MAX_LINES_PER_FILE,
            scan_lines(all, 0, total as nat) == then_scan(
                Scan { additions: adds as nat, deletions: dels as nat, lines: lines@.map_values(|l: DiffLine| line_model(l)), total: tot as nat },
                scan_lines(flatten(hunks@.skip(h as int)), lines@.len(), tot as nat),
            ),
        decreases hunks@.len() - h,
    {
        proof {
            lemma_flatten_step(hunks@, h as int);
        }
        let hunk = &hunks[h];
        let mut li: usize = 0;
        assert(hunk@.skip(0) =~= hunk@);
        while li < hunk.len()
            invariant
                h < hunks@.len(),
                hunk == hunks@[h as int],
                li <= hunk@.len(),
                all == flatten(hunks@),
                all.len() <= usize::MAX,
                seen + (hunk@.skip(li as int) + flatten(hunks@.skip(h + 1))).len() == all.len(),
                adds + dels <= seen,
                tot <= MAX_LINES_PER_COMMIT,
                lines@.len() <= MAX_LINES_PER_FILE,
                scan_lines(all, 0, total as nat) == then_scan(
                    Scan { additions: adds as nat, deletions: dels as nat, lines: lines@.map_values(|l: DiffLine| line_model(l)), total: tot as nat },
                    scan_lines(hunk@.skip(li as int) + flatten(hunks@.skip(h + 1)), lines@.len(), tot as nat),
                ),
            decreases hunk@.len() - li,
        {
            let ghost rest = hunk@.skip(li as int) + flatten(hunks@.skip(h + 1));
            let ghost old_lines = lines@.map_values(|l: DiffLine| line_model(l));
            let ghost stored = lines@.len();
            let ghost old_adds = adds;
            let ghost old_dels = dels;
            let ghost old_tot = tot;
            assert(rest[0] == hunk@[li as int]);
            assert(rest.drop_first() =~= hunk@.skip(li + 1) + flatten(hunks@.skip(h + 1)));
            let line = &hunk[li];
            let o = line.origin;
            if o == '+' || o == '-' || o == ' ' {
                if o == '+' {
                    adds += 1;
                } else if o == '-' {
                    dels += 1;
                }
                if lines.len() < MAX_LINES_PER_FILE && tot < MAX_LINES_PER_COMMIT {
                    let content = line_content(line.content.as_slice());
                    let dl = DiffLine { origin: o, content };
                    lines.push(dl);
                    tot += 1;
                    proof {
                        assert(lines@.map_values(|l: DiffLine| line_model(l)) =~= old_lines.push(
                            (o, line_text(hunk@[li as int].content@)),
                        ));
                        let r = scan_lines(rest.drop_first(), stored + 1, (old_tot + 1) as nat);
                        assert(scan_lines(rest, stored, old_tot as nat) == Scan {
                            additions: (if o == '+' { 1nat } else { 0nat }) + r.additions,
                            deletions: (if o == '-' { 1nat } else { 0nat }) + r.deletions,
                            lines: seq![(o, line_text(hunk@[li as int].content@))] + r.lines,
                            total: r.total,
                        });
                        assert(old_lines + (seq![(o, line_text(hunk@[li as int].content@))] + r.lines) =~= old_lines.push((o, line_text(hunk@[li as int].content@))) + r.lines);
                    }
                } else {
                    proof {
                        assert(scan_lines(rest, stored, old_tot as nat) == Scan {
                            additions: if o == '+' { 1nat } else { 0nat },
                            deletions: if o == '-' { 1nat } else { 0nat },
                            lines: Seq::empty(),
                            total: old_tot as nat,
                        });
                        assert(old_lines + Seq::<(char, Seq<char>)>::empty() =~= old_lines);
                    }
                    return (adds, dels, lines, tot);
                }
            }
            proof {
                seen = seen + 1;
            }
            li += 1;
        }
        assert(hunk@.skip(li as int) + flatten(hunks@.skip(h + 1)) =~= flatten(hunks@.skip(h + 1)));
        h += 1;
    }
    proof {
        assert(hunks@.skip(h as int) =~= Seq::<Vec<RawLine>>::empty());
        let fin = scan_lines(flatten(hunks@.skip(h as int)), lines@.len(), tot as nat);
        assert(fin == Scan { additions: 0, deletions: 0, lines: Seq::empty(), total: tot as nat });
        assert(lines@.map_values(|l: DiffLine| line_model(l)) + Seq::<(char, Seq<char>)>::empty() =~= lines@.map_values(|l: DiffLine| line_model(l)));
    }
    (adds, dels, lines, tot)
}

/// Every file's patch has at most `usize::MAX` lines in all.
pub open spec fn patches_fit(ds: Seq<RawDelta>) -> bool {
    forall|i: int| 0 <= i < ds.len() ==> match (#[trigger] ds[i]).hunks {
        Some(hs) => flatten(hs@).len() <= usize::MAX,
        None => true,
    }
}

/// Path shown for a changed file (see `delta_path`).
fn resolve_path(d: &RawDelta) -> (s: String)
    ensures
        s@ == delta_path(*d),
{
    let unknown = vec!['u', 'n', 'k', 'n', 'o', 'w', 'n'];
    assert(unknown@.subrange(0, 7) =~= unknown_path());
    match &d.new_path {
        RawPath::Text(p) => p.clone(),
        RawPath::NotUtf8 => string_of_range(unknown.as_slice(), 0, 7),
        RawPath::Absent => match &d.old_path {
            RawPath::Text(p) => p.clone(),
            _ => string_of_range(unknown.as_slice(), 0, 7),
        },
    }
}

/// Status shown for a git delta (see `status_of`).
pub fn change_status(k: DeltaKind) -> (s: ChangeStatus)
    ensures
        s == status_of(k),
{
    match k {
        DeltaKind::Added => ChangeStatus::Added,
        DeltaKind::Deleted => ChangeStatus::Deleted,
        DeltaKind::Renamed => ChangeStatus::Renamed,
        _ => ChangeStatus::Modified,
    }
}

/// The changed files of a commit with their diff lines: at most 80 lines
/// kept per file and 300 per commit, files read in order.
pub fn collect_file_changes(deltas: &Vec<RawDelta>) -> (r: Vec<FileChange>)
    requires
        patches_fit(deltas@),
    ensures
        change_models(r@) == changes_from(deltas@, 0),
{
    let mut out: Vec<FileChange> = Vec::new();
    let mut total: usize = 0;
    let mut i: usize = 0;
    assert(deltas@.skip(0) =~= deltas@);
    assert(change_models(out@) + changes_from(deltas@, 0) =~= changes_from(deltas@, 0));
    while i < deltas.len()
        invariant
            i <= deltas@.len(),
            patches_fit(deltas@),
            total <= MAX_LINES_PER_COMMIT,
            changes_from(deltas@, 0) == change_models(out@) + changes_from(deltas@.skip(i as int), total as nat),
        decreases deltas@.len() - i,
    {
        let d = &deltas[i];
        let ghost old_out = change_models(out@);
        let ghost old_total = total;
        assert(deltas@.skip(i as int)[0] == deltas@[i as int]);
        assert(deltas@.skip(i as int).drop_first() =~= deltas@.skip(i + 1));
        let (adds, dels, lines, new_total) = match &d.hunks {
            Some(hs) => {
                if total < MAX_LINES_PER_COMMIT {
                    assert(flatten(hs@).len() <= usize::MAX) by {
                        assert(patches_fit(deltas@));
                        assert(deltas@[i as int] == *d);
                    }
                    scan_hunks(hs, total)
                } else {
                    let empty: Vec<DiffLine> = Vec::new();
                    (0, 0, empty, total)
                }
            },
            None => {
                let empty: Vec<DiffLine> = Vec::new();
                (0, 0, empty, total)
            },
        };
        let ghost sc = scan_delta(*d, old_total as nat);
        proof {
            if d.hunks is Some && old_total < MAX_LINES_PER_COMMIT {
                lemma_scan_bounds(flatten(d.hunks->0@), 0, old_total as nat);
            }
            assert(lines@.map_values(|l: DiffLine| line_model(l)) =~= sc.lines);
        }
        let fc = FileChange {
            path: resolve_path(d),
            additions: adds,
            deletions: dels,
            status: change_status(d.kind),
            lines,
        };
        out.push(fc);
        total = new_total;
        proof {
            assert(change_models(out@) =~= old_out.push(fc@));
            assert(fc@ =~= FileChangeModel {
                path: delta_path(*d),
                additions: sc.additions,
                deletions: sc.deletions,
                status: status_of(d.kind),
                lines: sc.lines,
            });
            assert(old_out.push(fc@) + changes_from(deltas@.skip(i + 1), total as nat) =~= old_out + changes_from(deltas@.skip(i as int), old_total as nat));
        }
        i += 1;
    }
    assert(deltas@.skip(i as int) =~= Seq::<RawDelta>::empty());
    assert(change_models(out@) + Seq::<FileChangeModel>::empty() =~= change_models(out@));
    out
}

/// Number of diff lines kept over all of `fs`.
pub open spec fn kept_lines(fs: Seq<FileChangeModel>) -> nat
    decreases fs.len(),
{
    if fs.len() == 0 {
        0
    } else {
        fs[0].lines.len() + kept_lines(fs.drop_first())
    }
}

/// The diff caps hold: no file keeps more than 80 lines and a commit keeps
/// at most 300 lines over all its files.
pub proof fn lemma_diff_caps(ds: Seq<RawDelta>, total: nat)
    requires
        total <= MAX_LINES_PER_COMMIT,
    ensures
        forall|i: int| 0 <= i < changes_from(ds, total).len() ==> (#[trigger] changes_from(ds, total)[i]).lines.len() <= MAX_LINES_PER_FILE,
        total + kept_lines(changes_from(ds, total)) <= MAX_LINES_PER_COMMIT,
    decreases ds.len(),
{
    if ds.len() > 0 {
        let r = scan_delta(ds[0], total);
        if ds[0].hunks is Some && total < MAX_LINES_PER_COMMIT {
            lemma_scan_bounds(flatten(ds[0].hunks->0@), 0, total);
        }
        lemma_diff_caps(ds.drop_first(), r.total);
        let cs = changes_from(ds, total);
        assert(cs.drop_first() =~= changes_from(ds.drop_first(), r.total));
        assert forall|i: int| 0 <= i < cs.len() implies (#[trigger] cs[i]).lines.len() <= MAX_LINES_PER_FILE by {
            if i > 0 {
                assert(cs[i] == changes_from(ds.drop_first(), r.total)[i - 1]);
            }
        }
    }
}

// ── Commits ─────────────────────────────────────────────────────────────────

/// A commit as git reports it.
#[derive(Debug, Clone, PartialEq)]
pub struct RawCommit {
    /// Full object id, in hexadecimal.
    pub hash: String,
    /// Author name, `None` when not valid UTF-8.
    pub author_name: Option<String>,
    /// Author e-mail, `None` when not valid UTF-8.
    pub author_email: Option<String>,
    /// Message, `None` when not valid UTF-8.
    pub message: Option<String>,
    /// Commit time, seconds since the Unix epoch.
    pub time_secs: i64,
    pub parent_hashes: Vec<String>,
    /// Changed files, against the first parent (or the empty tree).
    pub deltas: Vec<RawDelta>,
    /// Diff statistics as counted by git over the whole diff.
    pub stats: DiffStats,
}

/// A tag reference: the object it points at and its raw reference name.
#[derive(Debug, Clone, PartialEq)]
pub struct TagRef {
    pub target: String,
    pub name: Vec<u8>,
}

/// A repository as read from git.
#[derive(Debug, Clone, PartialEq)]
pub struct RawRepo {
    /// Commits, oldest first.
    pub commits: Vec<RawCommit>,
    /// The commit HEAD points at, if any.
    pub head: Option<String>,
    pub tags: Vec<TagRef>,
    /// Name of the work-tree folder.
    pub repo_name: String,
    /// URL of the `origin` remote.
    pub remote_url: Option<String>,
}

/// `"Unknown"`
pub open spec fn unknown_author() -> Seq<char> {
    seq!['U', 'n', 'k', 'n', 'o', 'w', 'n']
}

/// `"refs/tags/"`
pub open spec fn tag_ref_prefix() -> Seq<char> {
    seq!['r', 'e', 'f', 's', '/', 't', 'a', 'g', 's', '/']
}

/// The text of an optional string, or `dflt`.
pub open spec fn text_or(o: Option<String>, dflt: Seq<char>) -> Seq<char> {
    match o {
        Some(s) => s@,
        None => dflt,
    }
}

/// The name of a tag: its reference name as UTF-8 (empty when invalid)
/// without leading `"refs/tags/"`s.
pub open spec fn tag_label(name: Seq<u8>) -> Seq<char> {
    crate::text::trim_start_pat(
        if vstd::utf8::valid_utf8(name) {
            vstd::utf8::decode_utf8(name)
        } else {
            Seq::empty()
        },
        tag_ref_prefix(),
    )
}

/// Names of the tags pointing at `hash`, in order.
pub open spec fn tags_of(tags: Seq<TagRef>, hash: Seq<char>) -> Seq<Seq<char>>
    decreases tags.len(),
{
    if tags.len() == 0 {
        Seq::empty()
    } else if tags.last().target@ == hash {
        tags_of(tags.drop_last(), hash).push(tag_label(tags.last().name@))
    } else {
        tags_of(tags.drop_last(), hash)
    }
}

/// Day number (from 0001-01-01 as day 1) of chrono's first date, 1 January
/// of year -262143.
pub open spec fn chrono_first_day() -> int {
    -95746129
}

/// Day number (from 0001-01-01 as day 1) of chrono's last date, 31 December
/// of year 262142.
pub open spec fn chrono_last_day() -> int {
    95745399
}

/// Whether chrono can represent a UTC time `secs` seconds after the epoch:
/// its day, counted from 0001-01-01 as day 1 (the epoch is day 719163), lies
/// between chrono's first and last dates.
pub open spec fn chrono_in_range(secs: i64) -> bool {
    let day = secs as int / 86400 + 719163;
    chrono_first_day() <= day && day <= chrono_last_day()
}

/// `chrono::DateTime::from_timestamp(secs, 0)`: it gives a time (`Some`)
/// exactly when the day of `secs` lies in chrono's date range (see
/// `chrono_in_range`).
#[verifier::external_body]
fn timestamp_in_range(secs: i64) -> (b: bool)
    ensures
        b == chrono_in_range(secs),
{
    chrono::DateTime::from_timestamp(secs, 0).is_some()
}

/// The time shown for a commit: its own when chrono can represent it, the
/// epoch otherwise.
pub open spec fn shown_time(secs: i64) -> i64 {
    if chrono_in_range(secs) {
        secs
    } else {
        0
    }
}

/// An object id has seven bytes that end at a character boundary, so its
/// short form can be cut from it.
pub open spec fn short_hash_ok(h: Seq<char>) -> bool {
    crate::text::byte_prefix(h, 7) is Some
}

/// `c` is the node built from raw commit `raw`, with HEAD at `head` and the
/// tag references `tags`.
pub open spec fn commit_built(raw: RawCommit, head: Option<Seq<char>>, tags: Seq<TagRef>, c: CommitNode) -> bool {
    let email = text_or(raw.author_email, Seq::empty());
    let full = text_or(raw.message, Seq::empty());
    &&& c.hash@ == raw.hash@
    &&& crate::text::byte_prefix(raw.hash@, 7) == Some(c.short_hash@)
    &&& c.full_message@ == full
    &&& c.message@ == crate::text::first_line(full)
    &&& c.author_name@ == text_or(raw.author_name, unknown_author())
    &&& c.author_email@ == email
    &&& c.timestamp == shown_time(raw.time_secs)
    &&& c.branch_name is None
    &&& c.color@ == crate::theme::contributor_palette()[(crate::theme::sha256_of(vstd::utf8::encode_utf8(email))[0] % 12) as int]@
    &&& c.parent_hashes@ == raw.parent_hashes@
    &&& c.is_merge == (raw.parent_hashes@.len() > 1)
    &&& c.is_head == (head == Some(raw.hash@))
    &&& texts(c.tags@) == tags_of(tags, raw.hash@)
    &&& change_models(c.files_changed@) == changes_from(raw.deltas@, 0)
    &&& c.stats == raw.stats
}

/// The text of an optional string, or `dflt`.
fn string_or(o: &Option<String>, dflt: &str) -> (s: String)
    ensures
        s@ == text_or(*o, dflt@),
{
    match o {
        Some(v) => v.clone(),
        None => string_of_str(dflt),
    }
}

/// The first line of `s` (see `first_line`).
pub fn first_line_of(s: &str) -> (r: String)
    ensures
        r@ == crate::text::first_line(s@),
{
    let v = chars_of(s);
    if v.len() == 0 {
        assert(crate::text::lines(s@) =~= Seq::<Seq<char>>::empty());
        return String::new();
    }
    let end = match crate::text::find_char_from(v.as_slice(), 0, '\n') {
        Some(i) => {
            proof {
                crate::text::lemma_first_index_of(v@.skip(0), '\n');
            }
            assert(v@.skip(0) =~= v@);
            i
        },
        None => {
            assert(v@.skip(0) =~= v@);
            v.len()
        },
    };
    let stop = if end < v.len() && end > 0 && v[end - 1] == '\r' { end - 1 } else { end };
    proof {
        let line = v@.take(end as int);
        if end == v.len() {
            assert(line =~= v@);
            assert(v@ =~= v@.subrange(0, stop as int));
        } else {
            assert(crate::text::strip_cr(line) =~= v@.subrange(0, stop as int));
        }
    }
    string_of_range(v.as_slice(), 0, stop)
}

/// The tag name of a reference name (see `tag_label`).
fn tag_name_of(name: &[u8]) -> (r: String)
    ensures
        r@ == tag_label(name@),
{
    let text = match utf8_str(name) {
        Some(t) => {
            proof {
                vstd::utf8::encode_utf8_decode_utf8(t@);
            }
            chars_of(t)
        },
        None => Vec::new(),
    };
    let prefix = vec!['r', 'e', 'f', 's', '/', 't', 'a', 'g', 's', '/'];
    assert(prefix@ == tag_ref_prefix());
    let start = crate::text::trim_start_pat_pos(text.as_slice(), 0, prefix.as_slice());
    assert(text@.skip(0) =~= text@);
    let r = string_of_range(text.as_slice(), start, text.len());
    assert(text@.subrange(start as int, text@.len() as int) =~= text@.skip(start as int));
    r
}

/// Names of the tags pointing at `hash`.
pub fn tags_for(tags: &Vec<TagRef>, hash: &str) -> (r: Vec<String>)
    ensures
        texts(r@) == tags_of(tags@, hash@),
{
    let mut out: Vec<String> = Vec::new();
    let mut i: usize = 0;
    while i < tags.len()
        invariant
            i <= tags@.len(),
            texts(out@) == tags_of(tags@.take(i as int), hash@),
        decreases tags@.len() - i,
    {
        assert(tags@.take(i + 1).drop_last() =~= tags@.take(i as int));
        assert(tags@.take(i + 1).last() == tags@[i as int]);
        if crate::text::str_eq(tags[i].target.as_str(), hash) {
            let name = tag_name_of(tags[i].name.as_slice());
            out.push(name);
            assert(texts(out@) =~= texts(out@.drop_last()).push(name@));
        }
        i += 1;
    }
    assert(tags@.take(tags@.len() as int) =~= tags@);
    out
}

/// Whether `head` is `Some(hash)`.
fn is_head_commit(head: &Option<String>, hash: &str) -> (b: bool)
    ensures
        b == (opt_text(*head) == Some(hash@)),
{
    match head {
        Some(h) => crate::text::str_eq(h.as_str(), hash),
        None => false,
    }
}

/// The node of one commit: its first message line, author (`"Unknown"` when
/// unnamed), contributor colour, merge and HEAD flags, tags and diff.
pub fn build_commit(raw: &RawCommit, head: &Option<String>, tags: &Vec<TagRef>) -> (c: CommitNode)
    requires
        short_hash_ok(raw.hash@),
        patches_fit(raw.deltas@),
    ensures
        commit_built(*raw, opt_text(*head), tags@, c),
{
    let author_name = string_or(&raw.author_name, "Unknown");
    let author_email = string_or(&raw.author_email, "");
    let full_message = string_or(&raw.message, "");
    let message = first_line_of(full_message.as_str());
    let color_ref = crate::theme::contributor_color(author_email.as_str());
    let color = string_of_str(color_ref);
    let hv = chars_of(raw.hash.as_str());
    assert(hv@.skip(0) =~= hv@);
    let short_hash = match crate::text::prefix_of_bytes(hv.as_slice(), 0, 7) {
        Some(p) => p,
        None => String::new(),
    };
    let timestamp = if timestamp_in_range(raw.time_secs) { raw.time_secs } else { 0 };
    let parent_hashes = copy_strings(&raw.parent_hashes);
    let is_merge = raw.parent_hashes.len() > 1;
    let is_head = is_head_commit(head, raw.hash.as_str());
    let tag_names = tags_for(tags, raw.hash.as_str());
    let files_changed = collect_file_changes(&raw.deltas);
    proof {
        reveal_strlit("Unknown");
        assert("Unknown"@ =~= unknown_author());
        assert(""@ =~= Seq::<char>::empty()) by {
            reveal_strlit("");
        }
    }
    CommitNode {
        hash: raw.hash.clone(),
        short_hash,
        message,
        full_message,
        author_name,
        author_email,
        timestamp,
        branch_name: None,
        color,
        parent_hashes,
        is_merge,
        is_head,
        tags: tag_names,
        files_changed,
        stats: raw.stats,
    }
}

// ── Whole repository ────────────────────────────────────────────────────────

/// The author e-mails of `cs`, in order.
pub open spec fn emails(cs: Seq<CommitNode>) -> Seq<Seq<char>> {
    cs.map_values(|c: CommitNode| c.author_email@)
}

/// Number of distinct author e-mails among `cs`.
pub open spec fn contributor_count(cs: Seq<CommitNode>) -> nat {
    emails(cs).to_set().len()
}

/// The main line of a history: the commits of its first branch line, if any.
pub open spec fn main_line_of(cs: Seq<CommitNode>) -> Seq<Seq<char>> {
    if branch_lines_of(cs).len() > 0 {
        branch_lines_of(cs)[0].commits
    } else {
        Seq::empty()
    }
}

/// Every raw commit can be turned into a node.
pub open spec fn repo_readable(raw: RawRepo) -> bool {
    forall|i: int| 0 <= i < raw.commits@.len() ==> short_hash_ok((#[trigger] raw.commits@[i]).hash@)
        && patches_fit(raw.commits@[i].deltas@)
}

/// `t` is the tree built from the repository read as `raw`.
pub open spec fn tree_built(raw: RawRepo, t: RepoTree) -> bool {
    &&& t.commits@.len() == raw.commits@.len()
    &&& forall|i: int| 0 <= i < t.commits@.len() ==> commit_built(
        #[trigger] raw.commits@[i],
        opt_text(raw.head),
        raw.tags@,
        t.commits@[i],
    )
    &&& branch_models(t.branches@) == branch_lines_of(t.commits@)
    &&& texts(t.main_branch@) == main_line_of(t.commits@)
    &&& t.repo_name@ == raw.repo_name@
    &&& opt_text(t.remote_url) == opt_text(raw.remote_url)
    &&& t.total_contributors == contributor_count(t.commits@)
}

/// Number of distinct author e-mails among `commits`.
pub fn count_contributors(commits: &Vec<CommitNode>) -> (n: usize)
    ensures
        n == contributor_count(commits@),
{
    let mut seen: Vec<String> = Vec::new();
    let mut i: usize = 0;
    while i < commits.len()
        invariant
            i <= commits@.len(),
            texts(seen@).no_duplicates(),
            texts(seen@).to_set() == emails(commits@.take(i as int)).to_set(),
            seen@.len() <= i,
        decreases commits@.len() - i,
    {
        let e = &commits[i].author_email;
        let mut j: usize = 0;
        let mut found = false;
        while j < seen.len()
            invariant
                j <= seen@.len(),
                found ==> texts(seen@).contains(e@),
                !found ==> forall|k: int| 0 <= k < j ==> seen@[k]@ != e@,
            decreases seen@.len() - j,
        {
            if crate::text::str_eq(seen[j].as_str(), e.as_str()) {
                found = true;
                assert(texts(seen@)[j as int] == e@);
            }
            j += 1;
        }
        proof {
            assert(emails(commits@.take(i + 1)) =~= emails(commits@.take(i as int)).push(e@));
            emails(commits@.take(i as int)).lemma_push_to_set_commute(e@);
        }
        if !found {
            let ghost old_seen = texts(seen@);
            seen.push(e.clone());
            proof {
                assert(texts(seen@) =~= old_seen.push(e@));
                old_seen.lemma_push_to_set_commute(e@);
                assert(!old_seen.contains(e@)) by {
                    if old_seen.contains(e@) {
                        let k = choose|k: int| 0 <= k < old_seen.len() && old_seen[k] == e@;
                        assert(seen@[k]@ == e@);
                    }
                }
            }
        } else {
            proof {
                assert(texts(seen@).to_set().insert(e@) =~= texts(seen@).to_set());
            }
        }
        i += 1;
    }
    proof {
        assert(commits@.take(commits@.len() as int) =~= commits@);
        texts(seen@).unique_seq_to_set();
    }
    seen.len()
}

/// A history has at most as many contributors as commits.
pub proof fn lemma_contributors_bounded(cs: Seq<CommitNode>)
    ensures
        contributor_count(cs) <= cs.len(),
{
    emails(cs).lemma_cardinality_of_set();
}

/// Commits by the same author e-mail get the same colour, and every colour
/// is one of the contributor palette's.
pub proof fn lemma_same_author_same_color(
    r1: RawCommit,
    r2: RawCommit,
    head: Option<Seq<char>>,
    tags: Seq<TagRef>,
    c1: CommitNode,
    c2: CommitNode,
)
    requires
        commit_built(r1, head, tags, c1),
        commit_built(r2, head, tags, c2),
        text_or(r1.author_email, Seq::empty()) == text_or(r2.author_email, Seq::empty()),
    ensures
        c1.color@ == c2.color@,
        exists|k: int| 0 <= k < 12 && c1.color@ == crate::theme::contributor_palette()[k]@,
{
    let email = text_or(r1.author_email, Seq::empty());
    let k = (crate::theme::sha256_of(vstd::utf8::encode_utf8(email))[0] % 12) as int;
    assert(0 <= k < 12);
    assert(c1.color@ == crate::theme::contributor_palette()[k]@);
}

/// The drawable tree of a repository: one node per commit (oldest first),
/// its branch lines, the main line, and the number of distinct authors.
pub fn assemble_tree(raw: &RawRepo) -> (t: RepoTree)
    requires
        repo_readable(*raw),
    ensures
        tree_built(*raw, t),
{
    let mut commits: Vec<CommitNode> = Vec::new();
    let mut i: usize = 0;
    while i < raw.commits.len()
        invariant
            i <= raw.commits@.len(),
            repo_readable(*raw),
            commits@.len() == i,
            forall|k: int| 0 <= k < i ==> commit_built(
                #[trigger] raw.commits@[k],
                opt_text(raw.head),
                raw.tags@,
                commits@[k],
            ),
        decreases raw.commits@.len() - i,
    {
        assert(short_hash_ok(raw.commits@[i as int].hash@));
        let c = build_commit(&raw.commits[i], &raw.head, &raw.tags);
        commits.push(c);
        i += 1;
    }
    let branches = build_branch_lines(commits.as_slice());
    let main_branch = if branches.len() > 0 {
        copy_strings(&branches[0].commits)
    } else {
        Vec::new()
    };
    proof {
        if branches@.len() > 0 {
            assert(branch_models(branches@)[0] == branches@[0]@);
        }
        assert(texts(Seq::<String>::empty()) =~= Seq::<Seq<char>>::empty());
    }
    let total_contributors = count_contributors(&commits);
    let remote_url = match &raw.remote_url {
        Some(u) => Some(u.clone()),
        None => None,
    };
    RepoTree {
        commits,
        branches,
        main_branch,
        repo_name: raw.repo_name.clone(),
        remote_url,
        total_contributors,
    }
}


// ── Copies ──────────────────────────────────────────────────────────────────

/// An owned copy of a diff line.
fn copy_line(l: &DiffLine) -> (c: DiffLine)
    ensures
        line_model(c) == line_model(*l),
{
    DiffLine { origin: l.origin, content: l.content.clone() }
}

/// An owned copy of a changed file.
pub fn copy_change(f: &FileChange) -> (c: FileChange)
    ensures
        c@ == f@,
{
    let mut lines: Vec<DiffLine> = Vec::new();
    let mut i: usize = 0;
    while i < f.lines.len()
        invariant
            i <= f.lines@.len(),
            lines@.map_values(|l: DiffLine| line_model(l)) == f.lines@.take(i as int).map_values(|l: DiffLine| line_model(l)),
        decreases f.lines@.len() - i,
    {
        let l = copy_line(&f.lines[i]);
        let ghost before = lines@;
        lines.push(l);
        proof {
            let m = |l: DiffLine| line_model(l);
            assert(f.lines@.take(i + 1) =~= f.lines@.take(i as int).push(f.lines@[i as int]));
            assert(lines@.map_values(m) =~= before.map_values(m).push(m(l)));
            assert(f.lines@.take(i + 1).map_values(m) =~= f.lines@.take(i as int).map_values(m).push(m(f.lines@[i as int])));
        }
        i += 1;
    }
    assert(f.lines@.take(f.lines@.len() as int) =~= f.lines@);
    let c = FileChange {
        path: f.path.clone(),
        additions: f.additions,
        deletions: f.deletions,
        status: f.status,
        lines,
    };
    assert(c@ =~= f@);
    c
}

/// Owned copies of a list of changed files.
pub fn copy_changes(v: &Vec<FileChange>) -> (r: Vec<FileChange>)
    ensures
        change_models(r@) == change_models(v@),
{
    let mut r: Vec<FileChange> = Vec::new();
    let mut i: usize = 0;
    while i < v.len()
        invariant
            i <= v@.len(),
            change_models(r@) == change_models(v@.take(i as int)),
        decreases v@.len() - i,
    {
        let c = copy_change(&v[i]);
        let ghost before = r@;
        r.push(c);
        proof {
            assert(v@.take(i + 1) =~= v@.take(i as int).push(v@[i as int]));
            assert(change_models(r@) =~= change_models(before).push(c@));
            assert(change_models(v@.take(i + 1)) =~= change_models(v@.take(i as int)).push(v@[i as int]@));
        }
        i += 1;
    }
    assert(v@.take(v@.len() as int) =~= v@);
    r
}

} // verus!
