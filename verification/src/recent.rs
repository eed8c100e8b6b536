//! The list of recently opened repositories: newest first, no path twice,
//! at most five entries.
use vstd::prelude::*;
use crate::text::{chars_of, contains_lowered, contains_seq, lowercase, matches_lowered, str_eq, to_lowercase};
use crate::updater::{at_most, string_of_str};

verus! {

/// A repository that was opened recently.
#[derive(Debug, Clone, PartialEq)]
pub struct RecentRepo {
    pub path: String,
    pub name: String,
    pub opened_at: String,
}

/// How many repositories the list remembers.
pub const MAX_RECENTS: usize = 5;

/// The entries of `rs` whose path is not `path`, in order.
pub open spec fn without_path(rs: Seq<RecentRepo>, path: Seq<char>) -> Seq<RecentRepo>
    decreases rs.len(),
{
    if rs.len() == 0 {
        Seq::empty()
    } else if rs.last().path@ == path {
        without_path(rs.drop_last(), path)
    } else {
        without_path(rs.drop_last(), path).push(rs.last())
    }
}

/// The list after opening `entry`: `entry` first, then the older entries
/// with another path, cut to `MAX_RECENTS`.
pub open spec fn recents_after_open(rs: Seq<RecentRepo>, entry: RecentRepo) -> Seq<RecentRepo> {
    at_most(seq![entry] + without_path(rs, entry.path@), MAX_RECENTS as nat)
}

/// No two entries of `rs` share a path.
pub open spec fn distinct_paths(rs: Seq<RecentRepo>) -> bool {
    forall|i: int, j: int| 0 <= i < j < rs.len() ==> rs[i].path@ != rs[j].path@
}

/// The entries of `rs` that match the lower-cased query `q`, in order: all of
/// them for an empty query, otherwise those whose name or path contains `q`,
/// ignoring case.
pub open spec fn recents_matching(rs: Seq<RecentRepo>, q: Seq<char>) -> Seq<RecentRepo>
    decreases rs.len(),
{
    if rs.len() == 0 {
        Seq::empty()
    } else {
        let r = rs.last();
        let keep = q.len() == 0 || matches_lowered(r.name@, q) || matches_lowered(r.path@, q);
        if keep {
            recents_matching(rs.drop_last(), q).push(r)
        } else {
            recents_matching(rs.drop_last(), q)
        }
    }
}

// ── Laws ────────────────────────────────────────────────────────────────────

proof fn lemma_without_path_facts(rs: Seq<RecentRepo>, path: Seq<char>)
    ensures
        without_path(rs, path).len() <= rs.len(),
        forall|i: int| 0 <= i < without_path(rs, path).len() ==> (#[trigger] without_path(rs, path)[i]).path@ != path,
        forall|i: int| 0 <= i < without_path(rs, path).len() ==> rs.contains(#[trigger] without_path(rs, path)[i]),
        distinct_paths(rs) ==> distinct_paths(without_path(rs, path)),
    decreases rs.len(),
{
    if rs.len() > 0 {
        lemma_without_path_facts(rs.drop_last(), path);
        let w = without_path(rs.drop_last(), path);
        assert forall|i: int| 0 <= i < w.len() implies rs.contains(#[trigger] w[i]) by {
            assert(rs.drop_last().contains(w[i]));
            let k = choose|k: int| 0 <= k < rs.drop_last().len() && rs.drop_last()[k] == w[i];
            assert(rs[k] == w[i]);
        }
        if rs.last().path@ != path {
            assert(rs[rs.len() - 1] == rs.last());
            if distinct_paths(rs) {
                assert forall|i: int, j: int| 0 <= i < j < w.push(rs.last()).len() implies w.push(
                    rs.last(),
                )[i].path@ != w.push(rs.last())[j].path@ by {
                    if j == w.len() {
                        assert(rs.drop_last().contains(w[i]));
                        let k = choose|k: int| 0 <= k < rs.drop_last().len() && rs.drop_last()[k] == w[i];
                        assert(rs[k] == w[i]);
                    } else {
                        assert(distinct_paths(rs.drop_last()));
                    }
                }
            }
        } else {
            if distinct_paths(rs) {
                assert(distinct_paths(rs.drop_last()));
            }
        }
    }
}

/// After a repository is opened it heads the list, no other entry has its
/// path, the list holds at most five entries, and a list without repeated
/// paths stays so.
pub proof fn lemma_open_recent(rs: Seq<RecentRepo>, entry: RecentRepo)
    ensures
        recents_after_open(rs, entry).len() <= MAX_RECENTS,
        recents_after_open(rs, entry)[0] == entry,
        forall|i: int| 1 <= i < recents_after_open(rs, entry).len() ==> (#[trigger] recents_after_open(rs, entry)[i]).path@ != entry.path@,
        distinct_paths(rs) ==> distinct_paths(recents_after_open(rs, entry)),
{
    lemma_without_path_facts(rs, entry.path@);
    let all = seq![entry] + without_path(rs, entry.path@);
    let r = recents_after_open(rs, entry);
    assert forall|i: int| 1 <= i < r.len() implies (#[trigger] r[i]).path@ != entry.path@ by {
        assert(r[i] == all[i]);
        assert(all[i] == without_path(rs, entry.path@)[i - 1]);
    }
    if distinct_paths(rs) {
        assert forall|i: int, j: int| 0 <= i < j < r.len() implies r[i].path@ != r[j].path@ by {
            assert(r[i] == all[i]);
            assert(r[j] == all[j]);
            assert(all[j] == without_path(rs, entry.path@)[j - 1]);
            if i > 0 {
                assert(all[i] == without_path(rs, entry.path@)[i - 1]);
            }
        }
    }
}

proof fn lemma_without_path_idem(rs: Seq<RecentRepo>, path: Seq<char>)
    ensures
        without_path(without_path(rs, path), path) == without_path(rs, path),
    decreases rs.len(),
{
    if rs.len() > 0 {
        lemma_without_path_idem(rs.drop_last(), path);
        let w = without_path(rs.drop_last(), path);
        if rs.last().path@ != path {
            assert(w.push(rs.last()).drop_last() =~= w);
        }
    }
}

proof fn lemma_without_path_take(rs: Seq<RecentRepo>, path: Seq<char>, n: int)
    requires
        0 <= n <= rs.len(),
        forall|i: int| 0 <= i < rs.len() ==> (#[trigger] rs[i]).path@ != path,
    ensures
        without_path(rs.take(n), path) == rs.take(n),
    decreases n,
{
    if n > 0 {
        assert(rs.take(n).drop_last() =~= rs.take(n - 1));
        lemma_without_path_take(rs, path, n - 1);
        assert(rs.take(n - 1).push(rs.take(n).last()) =~= rs.take(n));
    }
}

/// The filtered list keeps exactly the entries whose name or path contains
/// the lower-cased query (ignoring case), or all of them for an empty
/// query, in their order: it is never longer than the list, each entry it
/// shows matches, and each matching entry of the list is shown.
pub proof fn lemma_recents_matching_filters(rs: Seq<RecentRepo>, q: Seq<char>)
    ensures
        recents_matching(rs, q).len() <= rs.len(),
        q.len() == 0 ==> recents_matching(rs, q) == rs,
        forall|i: int| 0 <= i < recents_matching(rs, q).len() ==> rs.contains(#[trigger] recents_matching(rs, q)[i])
            && (q.len() == 0 || contains_seq(lowercase(recents_matching(rs, q)[i].name@), q) || contains_seq(
            lowercase(recents_matching(rs, q)[i].path@),
            q,
        )),
        forall|i: int| 0 <= i < rs.len() && (q.len() == 0 || contains_seq(lowercase(rs[i].name@), q)
            || contains_seq(lowercase(rs[i].path@), q)) ==> recents_matching(rs, q).contains(#[trigger] rs[i]),
    decreases rs.len(),
{
    if rs.len() > 0 {
        let d = rs.drop_last();
        lemma_recents_matching_filters(d, q);
        let m = recents_matching(d, q);
        let r = recents_matching(rs, q);
        assert forall|i: int| 0 <= i < r.len() implies rs.contains(#[trigger] r[i]) && (q.len() == 0
            || contains_seq(lowercase(r[i].name@), q) || contains_seq(lowercase(r[i].path@), q)) by {
            if i < m.len() {
                assert(r[i] == m[i]);
                let k = choose|k: int| 0 <= k < d.len() && d[k] == m[i];
                assert(rs[k] == d[k]);
            } else {
                assert(r[i] == rs.last());
                assert(rs[rs.len() - 1] == rs.last());
            }
        }
        assert forall|i: int| 0 <= i < rs.len() && (q.len() == 0 || contains_seq(lowercase(rs[i].name@), q)
            || contains_seq(lowercase(rs[i].path@), q)) implies r.contains(#[trigger] rs[i]) by {
            if i < rs.len() - 1 {
                assert(rs[i] == d[i]);
                let k = choose|k: int| 0 <= k < m.len() && m[k] == d[i];
                assert(r[k] == m[k]);
            } else {
                assert(rs[i] == rs.last());
                assert(r[r.len() - 1] == rs.last());
            }
        }
        if q.len() == 0 {
            assert(r =~= rs);
        }
    } else {
        assert(recents_matching(rs, q) =~= rs);
    }
}

/// Opening the same repository twice in a row leaves the list as opening it
/// once did.
pub proof fn lemma_open_recent_twice(rs: Seq<RecentRepo>, entry: RecentRepo)
    ensures
        recents_after_open(recents_after_open(rs, entry), entry) == recents_after_open(rs, entry),
{
    let p = entry.path@;
    let w = without_path(rs, p);
    let once = recents_after_open(rs, entry);
    lemma_without_path_facts(rs, p);
    let all = seq![entry] + w;
    // `once` is `entry` followed by a prefix of `w`.
    let k = once.len() - 1;
    assert(once.drop_first() =~= w.take(k));
    assert(once =~= seq![entry] + w.take(k));
    assert(once.drop_last().len() == k) by {
    }
    // Removing `entry`'s path from `once` leaves that prefix of `w`.
    assert(without_path(once, p) == w.take(k)) by {
        lemma_without_path_take(w, p, k);
        lemma_without_path_prepend(entry, w.take(k), p);
    }
    assert(seq![entry] + w.take(k) =~= once);
}

proof fn lemma_without_path_prepend(entry: RecentRepo, rest: Seq<RecentRepo>, p: Seq<char>)
    requires
        entry.path@ == p,
    ensures
        without_path(seq![entry] + rest, p) == without_path(rest, p),
    decreases rest.len(),
{
    if rest.len() == 0 {
        assert((seq![entry] + rest).drop_last() =~= Seq::<RecentRepo>::empty());
        assert((seq![entry] + rest).last() == entry);
        assert(without_path(Seq::<RecentRepo>::empty(), p) == Seq::<RecentRepo>::empty());
    } else {
        assert((seq![entry] + rest).drop_last() =~= seq![entry] + rest.drop_last());
        assert((seq![entry] + rest).last() == rest.last());
        lemma_without_path_prepend(entry, rest.drop_last(), p);
    }
}

// ── Executable functions ────────────────────────────────────────────────────

/// An owned copy of `r`.
pub fn copy_recent(r: &RecentRepo) -> (c: RecentRepo)
    ensures
        c == *r,
{
    RecentRepo { path: r.path.clone(), name: r.name.clone(), opened_at: r.opened_at.clone() }
}

/// The list after opening the repository at `path` named `name` at time
/// `opened_at`: the new entry first, any older entry with the same path
/// dropped, and at most `MAX_RECENTS` entries kept.
pub fn update_recents(recents: &Vec<RecentRepo>, path: &str, name: &str, opened_at: &str) -> (r: Vec<RecentRepo>)
    ensures
        r@ == recents_after_open(
            recents@,
            RecentRepo { path: r@[0].path, name: r@[0].name, opened_at: r@[0].opened_at },
        ),
        r@.len() > 0,
        r@[0].path@ == path@,
        r@[0].name@ == name@,
        r@[0].opened_at@ == opened_at@,
{
    let entry = RecentRepo {
        path: string_of_str(path),
        name: string_of_str(name),
        opened_at: string_of_str(opened_at),
    };
    let ghost e = entry;
    let mut out: Vec<RecentRepo> = Vec::new();
    out.push(entry);
    let mut i: usize = 0;
    while i < recents.len() && out.len() < MAX_RECENTS
        invariant
            i <= recents@.len(),
            1 <= out@.len() <= MAX_RECENTS,
            out@[0] == e,
            e.path@ == path@,
            out@ == seq![e] + without_path(recents@.take(i as int), path@),
        decreases recents@.len() - i,
    {
        let keep = !str_eq(recents[i].path.as_str(), path);
        assert(recents@.take(i + 1).drop_last() =~= recents@.take(i as int));
        assert(recents@.take(i + 1).last() == recents@[i as int]);
        if keep {
            let c = copy_recent(&recents[i]);
            out.push(c);
            assert(out@ =~= seq![e] + without_path(recents@.take(i + 1), path@));
        }
        i += 1;
    }
    proof {
        let w = without_path(recents@, path@);
        lemma_without_path_prefix(recents@, path@, i as int);
        if i == recents@.len() {
            assert(recents@.take(i as int) =~= recents@);
        }
        assert(recents_after_open(recents@, e) =~= out@);
    }
    out
}

proof fn lemma_without_path_prefix(rs: Seq<RecentRepo>, path: Seq<char>, n: int)
    requires
        0 <= n <= rs.len(),
    ensures
        exists|k: int| 0 <= k <= without_path(rs, path).len() && #[trigger] without_path(rs, path).take(k) == without_path(rs.take(n), path),
    decreases rs.len() - n,
{
    if n == rs.len() {
        assert(rs.take(n) =~= rs);
        assert(without_path(rs, path).take(without_path(rs, path).len() as int) =~= without_path(rs, path));
    } else {
        lemma_without_path_prefix(rs, path, n + 1);
        let k = choose|k: int| 0 <= k <= without_path(rs, path).len() && #[trigger] without_path(rs, path).take(k) == without_path(rs.take(n + 1), path);
        assert(rs.take(n + 1).drop_last() =~= rs.take(n));
        if rs.take(n + 1).last().path@ == path {
            assert(without_path(rs, path).take(k) == without_path(rs.take(n), path));
        } else {
            let w = without_path(rs, path);
            assert(w.take(k).len() == k);
            assert(k >= 1);
            assert(w.take(k - 1) =~= w.take(k).drop_last());
            assert(w.take(k - 1) =~= without_path(rs.take(n), path));
        }
    }
}

/// The recent repositories whose name or path contains `query`, ignoring
/// case; all of them for an empty query.
pub fn filter_recents(recents: &Vec<RecentRepo>, query: &str) -> (r: Vec<RecentRepo>)
    ensures
        r@ == recents_matching(recents@, lowercase(query@)),
{
    let q = to_lowercase(query);
    let qv = chars_of(q.as_str());
    let mut out: Vec<RecentRepo> = Vec::new();
    let mut i: usize = 0;
    while i < recents.len()
        invariant
            i <= recents@.len(),
            qv@ == lowercase(query@),
            out@ == recents_matching(recents@.take(i as int), qv@),
        decreases recents@.len() - i,
    {
        let r = &recents[i];
        let keep = qv.len() == 0 || contains_lowered(r.name.as_str(), qv.as_slice())
            || contains_lowered(r.path.as_str(), qv.as_slice());
        assert(recents@.take(i + 1).drop_last() =~= recents@.take(i as int));
        assert(recents@.take(i + 1).last() == recents@[i as int]);
        if keep {
            out.push(copy_recent(r));
        }
        i += 1;
    }
    assert(recents@.take(recents@.len() as int) =~= recents@);
    out
}

} // verus!
