//! The commit tree: layout choices, which commits are drawn, search matches,
//! keyboard navigation and the hint line.
use vstd::prelude::*;
use crate::parser::{texts, CommitNode};
use crate::search::{decimal, push_decimal};
use crate::text::push_all;
use crate::text::{chars_of, contains_lowered, contains_seq, lowercase, matches_lowered, to_lowercase};

verus! {

/// Direction in which the history is drawn.
#[derive(Debug, Clone, Copy, PartialEq, Eq)]
pub enum TreeDirection {
    Horizontal,
    Vertical,
}

/// How branch connectors are drawn.
#[derive(Debug, Clone, Copy, PartialEq, Eq)]
pub enum BranchStyle {
    Curved,
    Geometric,
}

/// Commit `c` matches the search `query`: every commit matches an empty
/// query; otherwise the author name or e-mail, the message (first line or
/// whole) or the hash (short or full) must contain the query, ignoring case.
pub open spec fn commit_matching(c: CommitNode, query: Seq<char>) -> bool {
    let q = lowercase(query);
    query.len() == 0 || matches_lowered(c.author_name@, q) || matches_lowered(c.author_email@, q)
        || matches_lowered(c.message@, q) || matches_lowered(c.full_message@, q)
        || matches_lowered(c.short_hash@, q) || matches_lowered(c.hash@, q)
}

/// A commit matches a search exactly when the search is empty or one of its
/// author name, author e-mail, first message line, full message, short hash
/// or full hash contains the search text, ignoring case.
pub proof fn lemma_commit_matching_fields(c: CommitNode, query: Seq<char>)
    ensures
        query.len() == 0 ==> commit_matching(c, query),
        contains_seq(lowercase(c.author_name@), lowercase(query)) ==> commit_matching(c, query),
        contains_seq(lowercase(c.author_email@), lowercase(query)) ==> commit_matching(c, query),
        contains_seq(lowercase(c.message@), lowercase(query)) ==> commit_matching(c, query),
        contains_seq(lowercase(c.full_message@), lowercase(query)) ==> commit_matching(c, query),
        contains_seq(lowercase(c.short_hash@), lowercase(query)) ==> commit_matching(c, query),
        contains_seq(lowercase(c.hash@), lowercase(query)) ==> commit_matching(c, query),
        commit_matching(c, query) ==> query.len() == 0 || contains_seq(lowercase(c.author_name@), lowercase(query))
            || contains_seq(lowercase(c.author_email@), lowercase(query)) || contains_seq(
            lowercase(c.message@),
            lowercase(query),
        ) || contains_seq(lowercase(c.full_message@), lowercase(query)) || contains_seq(
            lowercase(c.short_hash@),
            lowercase(query),
        ) || contains_seq(lowercase(c.hash@), lowercase(query)),
{
}

/// Whether `commit` matches the search `query` (see `commit_matching`).
pub fn commit_matches(commit: &CommitNode, query: &str) -> (b: bool)
    ensures
        b == commit_matching(*commit, query@),
{
    if query.is_empty() {
        return true;
    }
    let q = to_lowercase(query);
    let qv = chars_of(q.as_str());
    let qs = qv.as_slice();
    contains_lowered(commit.author_name.as_str(), qs) || contains_lowered(commit.author_email.as_str(), qs)
        || contains_lowered(commit.message.as_str(), qs) || contains_lowered(commit.full_message.as_str(), qs)
        || contains_lowered(commit.short_hash.as_str(), qs) || contains_lowered(commit.hash.as_str(), qs)
}

/// Index of the first of `hashes` equal to `h`.
pub open spec fn index_of_hash(hashes: Seq<String>, h: Seq<char>) -> Option<int>
    decreases hashes.len(),
{
    if hashes.len() == 0 {
        None
    } else if hashes[0]@ == h {
        Some(0)
    } else {
        match index_of_hash(hashes.drop_first(), h) {
            Some(i) => Some(i + 1),
            None => None,
        }
    }
}

/// The commit selected by an arrow key among the matching commits `hashes`
/// (in drawing order): forward goes to the next one (the first when nothing
/// is selected), backward to the previous one (the last when nothing is
/// selected); nothing past either end or when the selection is not among
/// them.
pub open spec fn arrow_target(hashes: Seq<String>, selected: Option<Seq<char>>, forward: bool) -> Option<int> {
    match selected {
        None => if hashes.len() == 0 {
            None
        } else if forward {
            Some(0)
        } else {
            Some(hashes.len() - 1)
        },
        Some(h) => match index_of_hash(hashes, h) {
            None => None,
            Some(i) => if forward {
                if i + 1 < hashes.len() {
                    Some(i + 1)
                } else {
                    None
                }
            } else if i >= 1 {
                Some(i - 1)
            } else {
                None
            },
        },
    }
}

proof fn lemma_index_of_hash(hashes: Seq<String>, h: Seq<char>)
    ensures
        index_of_hash(hashes, h) matches Some(i) ==> 0 <= i < hashes.len(),
    decreases hashes.len(),
{
    if hashes.len() > 0 {
        lemma_index_of_hash(hashes.drop_first(), h);
    }
}

/// Index of the commit to select after an arrow key (see `arrow_target`).
pub fn navigate(hashes: &Vec<String>, selected: Option<&str>, forward: bool) -> (r: Option<usize>)
    ensures
        match r {
            Some(i) => arrow_target(hashes@, match selected { Some(s) => Some(s@), None => None }, forward) == Some(i as int),
            None => arrow_target(hashes@, match selected { Some(s) => Some(s@), None => None }, forward) is None,
        },
{
    match selected {
        None => {
            if hashes.len() == 0 {
                None
            } else if forward {
                Some(0)
            } else {
                Some(hashes.len() - 1)
            }
        },
        Some(h) => {
            let mut i: usize = 0;
            assert(hashes@.skip(0) =~= hashes@);
            while i < hashes.len()
                invariant
                    i <= hashes@.len(),
                    selected == Some(h),
                    index_of_hash(hashes@, h@) == match index_of_hash(hashes@.skip(i as int), h@) {
                        Some(k) => Some(k + i),
                        None => None,
                    },
                decreases hashes@.len() - i,
            {
                if crate::text::str_eq(hashes[i].as_str(), h) {
                    assert(hashes@.skip(i as int)[0] == hashes@[i as int]);
                    if forward {
                        if i + 1 < hashes.len() {
                            return Some(i + 1);
                        } else {
                            return None;
                        }
                    } else if i >= 1 {
                        return Some(i - 1);
                    } else {
                        return None;
                    }
                }
                assert(hashes@.skip(i as int).drop_first() =~= hashes@.skip(i + 1));
                i += 1;
            }
            None
        },
    }
}

/// No hash occurs twice in `hashes`.
pub open spec fn distinct_hashes(hashes: Seq<String>) -> bool {
    forall|i: int, j: int| 0 <= i < j < hashes.len() ==> hashes[i]@ != hashes[j]@
}

proof fn lemma_index_of_distinct(hashes: Seq<String>, k: int)
    requires
        0 <= k < hashes.len(),
        distinct_hashes(hashes),
    ensures
        index_of_hash(hashes, hashes[k]@) == Some(k),
    decreases k,
{
    if k > 0 {
        let d = hashes.drop_first();
        assert(distinct_hashes(d)) by {
            assert forall|i: int, j: int| 0 <= i < j < d.len() implies d[i]@ != d[j]@ by {
                assert(d[i] == hashes[i + 1] && d[j] == hashes[j + 1]);
            }
        }
        assert(d[k - 1] == hashes[k]);
        lemma_index_of_distinct(d, k - 1);
        assert(hashes[0]@ != hashes[k]@);
    }
}

/// Among distinct hashes, the forward and backward arrow keys undo each
/// other: forward from the `i`-th commit selects the next one, and backward
/// from that one selects the `i`-th again.
pub proof fn lemma_arrows_undo(hashes: Seq<String>, i: int)
    requires
        distinct_hashes(hashes),
        0 <= i,
        i + 1 < hashes.len(),
    ensures
        arrow_target(hashes, Some(hashes[i]@), true) == Some(i + 1),
        arrow_target(hashes, Some(hashes[i + 1]@), false) == Some(i),
{
    lemma_index_of_distinct(hashes, i);
    lemma_index_of_distinct(hashes, i + 1);
}


// ── Drawn commits and matches ───────────────────────────────────────────────

/// Commit `c` is drawn: merge commits only when they are shown.
pub open spec fn drawn(c: CommitNode, show_merges: bool) -> bool {
    show_merges || !c.is_merge
}

/// Positions in `cs` of the commits drawn, in order.
pub open spec fn drawn_indices(cs: Seq<CommitNode>, show_merges: bool) -> Seq<usize>
    decreases cs.len(),
{
    if cs.len() == 0 {
        Seq::empty()
    } else if drawn(cs.last(), show_merges) {
        drawn_indices(cs.drop_last(), show_merges).push((cs.len() - 1) as usize)
    } else {
        drawn_indices(cs.drop_last(), show_merges)
    }
}

/// Hashes of the drawn commits that match `query`, in drawing order: the
/// commits that the arrow keys step through.
pub open spec fn matching_hashes_of(cs: Seq<CommitNode>, show_merges: bool, query: Seq<char>) -> Seq<Seq<char>>
    decreases cs.len(),
{
    if cs.len() == 0 {
        Seq::empty()
    } else if drawn(cs.last(), show_merges) && commit_matching(cs.last(), query) {
        matching_hashes_of(cs.drop_last(), show_merges, query).push(cs.last().hash@)
    } else {
        matching_hashes_of(cs.drop_last(), show_merges, query)
    }
}

/// Positions of the commits drawn (see `drawn_indices`).
pub fn drawn_commits(commits: &Vec<CommitNode>, show_merges: bool) -> (r: Vec<usize>)
    ensures
        r@ == drawn_indices(commits@, show_merges),
{
    let mut r: Vec<usize> = Vec::new();
    let mut i: usize = 0;
    while i < commits.len()
        invariant
            i <= commits@.len(),
            r@ == drawn_indices(commits@.take(i as int), show_merges),
        decreases commits@.len() - i,
    {
        assert(commits@.take(i + 1).drop_last() =~= commits@.take(i as int));
        assert(commits@.take(i + 1).last() == commits@[i as int]);
        if show_merges || !commits[i].is_merge {
            r.push(i);
        }
        i += 1;
    }
    assert(commits@.take(commits@.len() as int) =~= commits@);
    r
}

/// Hashes of the drawn commits matching `query` (see `matching_hashes_of`).
pub fn matching_hashes(commits: &Vec<CommitNode>, show_merges: bool, query: &str) -> (r: Vec<String>)
    ensures
        texts(r@) == matching_hashes_of(commits@, show_merges, query@),
{
    let mut r: Vec<String> = Vec::new();
    let mut i: usize = 0;
    while i < commits.len()
        invariant
            i <= commits@.len(),
            texts(r@) == matching_hashes_of(commits@.take(i as int), show_merges, query@),
        decreases commits@.len() - i,
    {
        assert(commits@.take(i + 1).drop_last() =~= commits@.take(i as int));
        assert(commits@.take(i + 1).last() == commits@[i as int]);
        if (show_merges || !commits[i].is_merge) && commit_matches(&commits[i], query) {
            let ghost before = r@;
            r.push(commits[i].hash.clone());
            assert(texts(r@) =~= texts(before).push(commits@[i as int].hash@));
        }
        i += 1;
    }
    assert(commits@.take(commits@.len() as int) =~= commits@);
    r
}

/// How many drawn commits match a search: `None` while there is no search.
pub fn match_count(commits: &Vec<CommitNode>, show_merges: bool, query: &str) -> (r: Option<usize>)
    ensures
        r == if query@.len() == 0 {
            None
        } else {
            Some(matching_hashes_of(commits@, show_merges, query@).len() as usize)
        },
{
    if query.is_empty() {
        None
    } else {
        let m = matching_hashes(commits, show_merges, query);
        Some(m.len())
    }
}

// ── Hint line ───────────────────────────────────────────────────────────────

/// The arrow keys that step through commits.
pub open spec fn arrows(vertical: bool) -> Seq<char> {
    if vertical {
        "↑ ↓"@
    } else {
        "← →"@
    }
}

/// The hint under the tree: with a search, the number of matches; without,
/// how to zoom and pan.
pub open spec fn hint_text(matches: Option<usize>, vertical: bool) -> Seq<char> {
    match matches {
        Some(n) => decimal(n as nat) + " match"@ + (if n == 1 {
            ""@
        } else {
            "es"@
        }) + "  ·  "@ + arrows(vertical) + " navigate  ·  ESC deselect"@,
        None => arrows(vertical) + " navigate  ·  ESC deselect  ·  CTRL+scroll zoom  ·  drag pan"@,
    }
}

/// Appends the characters of `s` to `out`.
fn push_str(out: &mut String, s: &str)
    ensures
        final(out)@ == old(out)@ + s@,
{
    let v = chars_of(s);
    push_all(out, v.as_slice());
}

/// The hint under the tree (see `hint_text`).
pub fn canvas_hint(matches: Option<usize>, vertical: bool) -> (r: String)
    ensures
        r@ == hint_text(matches, vertical),
{
    let arrows_text = if vertical { "↑ ↓" } else { "← →" };
    let mut out = String::new();
    match matches {
        Some(n) => {
            push_decimal(&mut out, n as u64);
            push_str(&mut out, " match");
            push_str(&mut out, if n == 1 { "" } else { "es" });
            push_str(&mut out, "  ·  ");
            push_str(&mut out, arrows_text);
            push_str(&mut out, " navigate  ·  ESC deselect");
        },
        None => {
            push_str(&mut out, arrows_text);
            push_str(&mut out, " navigate  ·  ESC deselect  ·  CTRL+scroll zoom  ·  drag pan");
        },
    }
    assert(out@ =~= hint_text(matches, vertical));
    out
}

} // verus!
