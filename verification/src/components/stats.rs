//! Repository statistics: the contributor leaderboard and the commit
//! heatmap.
use vstd::prelude::*;
use crate::parser::CommitNode;

verus! {

/// One contributor on the leaderboard.
#[derive(Debug, Clone, PartialEq)]
pub struct ContributorStat {
    pub email: String,
    /// Author name of the contributor's first commit.
    pub name: String,
    /// Colour of the contributor's first commit.
    pub color: String,
    pub commit_count: usize,
}

/// A leaderboard entry as plain values: e-mail, name, colour, commits.
pub open spec fn stat_model(s: ContributorStat) -> (Seq<char>, Seq<char>, Seq<char>, nat) {
    (s.email@, s.name@, s.color@, s.commit_count as nat)
}

/// The plain values of a leaderboard.
pub open spec fn stat_models(v: Seq<ContributorStat>) -> Seq<(Seq<char>, Seq<char>, Seq<char>, nat)> {
    v.map_values(|s: ContributorStat| stat_model(s))
}

/// Index of the entry of `t` for `email`.
pub open spec fn entry_of(t: Seq<(Seq<char>, Seq<char>, Seq<char>, nat)>, email: Seq<char>) -> Option<int>
    decreases t.len(),
{
    if t.len() == 0 {
        None
    } else if t.last().0 == email {
        Some(t.len() - 1)
    } else {
        entry_of(t.drop_last(), email)
    }
}

/// Commits counted per author e-mail, in order of each author's first
/// commit, with the name and colour of that first commit.
pub open spec fn tally(cs: Seq<CommitNode>) -> Seq<(Seq<char>, Seq<char>, Seq<char>, nat)>
    decreases cs.len(),
{
    if cs.len() == 0 {
        Seq::empty()
    } else {
        let t = tally(cs.drop_last());
        let c = cs.last();
        match entry_of(t, c.author_email@) {
            Some(k) => t.update(k, (t[k].0, t[k].1, t[k].2, t[k].3 + 1)),
            None => t.push((c.author_email@, c.author_name@, c.color@, 1)),
        }
    }
}

/// Where an entry with `n` commits goes into `s`, which is ordered by
/// commits, most first: after every entry with at least as many.
pub open spec fn count_slot(s: Seq<(Seq<char>, Seq<char>, Seq<char>, nat)>, n: nat) -> int
    decreases s.len(),
{
    if s.len() == 0 {
        0
    } else if s.last().3 >= n {
        s.len() as int
    } else {
        count_slot(s.drop_last(), n)
    }
}

/// `t` ordered by commits, most first, equal counts in their order in `t`.
pub open spec fn by_count(t: Seq<(Seq<char>, Seq<char>, Seq<char>, nat)>) -> Seq<(Seq<char>, Seq<char>, Seq<char>, nat)>
    decreases t.len(),
{
    if t.len() == 0 {
        Seq::empty()
    } else {
        let s = by_count(t.drop_last());
        s.insert(count_slot(s, t.last().3), t.last())
    }
}

/// The leaderboard of a history.
pub open spec fn leaderboard(cs: Seq<CommitNode>) -> Seq<(Seq<char>, Seq<char>, Seq<char>, nat)> {
    by_count(tally(cs))
}

proof fn lemma_entry_of(t: Seq<(Seq<char>, Seq<char>, Seq<char>, nat)>, email: Seq<char>)
    ensures
        entry_of(t, email) matches Some(k) ==> 0 <= k < t.len() && t[k].0 == email,
        entry_of(t, email) is None ==> forall|k: int| 0 <= k < t.len() ==> t[k].0 != email,
    decreases t.len(),
{
    if t.len() > 0 {
        lemma_entry_of(t.drop_last(), email);
        assert forall|k: int| 0 <= k < t.len() - 1 implies t[k] == t.drop_last()[k] by {}
    }
}

proof fn lemma_count_slot(s: Seq<(Seq<char>, Seq<char>, Seq<char>, nat)>, n: nat)
    ensures
        0 <= count_slot(s, n) <= s.len(),
    decreases s.len(),
{
    if s.len() > 0 {
        lemma_count_slot(s.drop_last(), n);
    }
}

proof fn lemma_by_count_len(t: Seq<(Seq<char>, Seq<char>, Seq<char>, nat)>)
    ensures
        by_count(t).len() == t.len(),
    decreases t.len(),
{
    if t.len() > 0 {
        lemma_by_count_len(t.drop_last());
        lemma_count_slot(by_count(t.drop_last()), t.last().3);
    }
}

/// An owned copy of a leaderboard entry.
fn copy_stat(s: &ContributorStat) -> (c: ContributorStat)
    ensures
        c == *s,
{
    ContributorStat {
        email: s.email.clone(),
        name: s.name.clone(),
        color: s.color.clone(),
        commit_count: s.commit_count,
    }
}

/// The contributor leaderboard: one entry per author e-mail with its number
/// of commits and the name and colour of its first commit, most commits
/// first (equal counts in order of first commit).
pub fn contributor_stats(commits: &Vec<CommitNode>) -> (r: Vec<ContributorStat>)
    ensures
        stat_models(r@) == leaderboard(commits@),
{
    let mut t: Vec<ContributorStat> = Vec::new();
    let mut i: usize = 0;
    while i < commits.len()
        invariant
            i <= commits@.len(),
            stat_models(t@) == tally(commits@.take(i as int)),
            forall|k: int| 0 <= k < t@.len() ==> (#[trigger] t@[k]).commit_count <= i,
        decreases commits@.len() - i,
    {
        let c = &commits[i];
        let ghost before = stat_models(t@);
        assert(commits@.take(i + 1).drop_last() =~= commits@.take(i as int));
        assert(commits@.take(i + 1).last() == commits@[i as int]);
        // Entry of this author, searching from the end as `entry_of` does.
        let mut k = t.len();
        let mut found = false;
        assert(before.take(k as int) =~= before);
        while k > 0 && !found
            invariant
                k <= t@.len(),
                before == stat_models(t@),
                found ==> k < t@.len() && entry_of(before, c.author_email@) == Some(k as int),
                !found ==> entry_of(before, c.author_email@) == entry_of(before.take(k as int), c.author_email@),
            decreases k + if found { 0int } else { 1int },
        {
            assert(before.take(k as int).drop_last() =~= before.take(k - 1));
            assert(before.take(k as int).last() == before[k - 1]);
            if crate::text::str_eq(t[k - 1].email.as_str(), c.author_email.as_str()) {
                found = true;
                k = k - 1;
            } else {
                k = k - 1;
            }
        }
        proof {
            lemma_entry_of(before, c.author_email@);
            if !found {
                assert(before.take(0) =~= Seq::<(Seq<char>, Seq<char>, Seq<char>, nat)>::empty());
            }
        }
        if found {
            let mut e = copy_stat(&t[k]);
            e.commit_count = e.commit_count + 1;
            t.set(k, e);
            assert(stat_models(t@) =~= before.update(k as int, (before[k as int].0, before[k as int].1, before[k as int].2, before[k as int].3 + 1)));
        } else {
            t.push(
                ContributorStat {
                    email: c.author_email.clone(),
                    name: c.author_name.clone(),
                    color: c.color.clone(),
                    commit_count: 1,
                },
            );
            assert(stat_models(t@) =~= before.push((c.author_email@, c.author_name@, c.color@, 1nat)));
        }
        i += 1;
    }
    assert(commits@.take(commits@.len() as int) =~= commits@);
    // Stable insertion by count, most first.
    let mut out: Vec<ContributorStat> = Vec::new();
    let mut j: usize = 0;
    let ghost tm = stat_models(t@);
    while j < t.len()
        invariant
            j <= t@.len(),
            tm == stat_models(t@),
            stat_models(out@) == by_count(tm.take(j as int)),
        decreases t@.len() - j,
    {
        let n = t[j].commit_count;
        let mut k = out.len();
        proof {
            lemma_by_count_len(tm.take(j as int));
            assert(stat_models(out@).take(k as int) =~= stat_models(out@));
        }
        while k > 0 && out[k - 1].commit_count < n
            invariant
                k <= out@.len(),
                count_slot(stat_models(out@), n as nat) == count_slot(stat_models(out@).take(k as int), n as nat),
            decreases k,
        {
            assert(stat_models(out@).take(k as int).drop_last() =~= stat_models(out@).take(k - 1));
            assert(stat_models(out@).take(k as int).last() == stat_models(out@)[k - 1]);
            k -= 1;
        }
        proof {
            if k > 0 {
                assert(stat_models(out@).take(k as int).last() == stat_models(out@)[k - 1]);
            }
            assert(stat_models(out@).take(k as int).len() == k);
        }
        let ghost old_out = stat_models(out@);
        let e = copy_stat(&t[j]);
        out.insert(k, e);
        assert(stat_models(out@) =~= old_out.insert(k as int, stat_model(e)));
        assert(tm.take(j + 1).drop_last() =~= tm.take(j as int));
        assert(tm.take(j + 1).last() == tm[j as int]);
        j += 1;
    }
    assert(tm.take(t@.len() as int) =~= tm);
    out
}

// ── Laws ────────────────────────────────────────────────────────────────────

/// Total commits counted by `t`.
pub open spec fn counted(t: Seq<(Seq<char>, Seq<char>, Seq<char>, nat)>) -> nat
    decreases t.len(),
{
    if t.len() == 0 {
        0
    } else {
        counted(t.drop_last()) + t.last().3
    }
}

/// Entries are ordered by commits, most first.
pub open spec fn most_first(t: Seq<(Seq<char>, Seq<char>, Seq<char>, nat)>) -> bool {
    forall|i: int, j: int| 0 <= i < j < t.len() ==> t[i].3 >= t[j].3
}

/// No two entries share an e-mail.
pub open spec fn one_per_author(t: Seq<(Seq<char>, Seq<char>, Seq<char>, nat)>) -> bool {
    forall|i: int, j: int| 0 <= i < j < t.len() ==> t[i].0 != t[j].0
}

proof fn lemma_counted_update(t: Seq<(Seq<char>, Seq<char>, Seq<char>, nat)>, k: int, e: (Seq<char>, Seq<char>, Seq<char>, nat))
    requires
        0 <= k < t.len(),
    ensures
        counted(t.update(k, e)) + t[k].3 == counted(t) + e.3,
    decreases t.len(),
{
    if k == t.len() - 1 {
        assert(t.update(k, e).drop_last() =~= t.drop_last());
    } else {
        assert(t.update(k, e).drop_last() =~= t.drop_last().update(k, e));
        lemma_counted_update(t.drop_last(), k, e);
    }
}

proof fn lemma_counted_insert(t: Seq<(Seq<char>, Seq<char>, Seq<char>, nat)>, k: int, e: (Seq<char>, Seq<char>, Seq<char>, nat))
    requires
        0 <= k <= t.len(),
    ensures
        counted(t.insert(k, e)) == counted(t) + e.3,
    decreases t.len(),
{
    if k == t.len() {
        assert(t.insert(k, e) =~= t.push(e));
        assert(t.push(e).drop_last() =~= t);
    } else {
        assert(t.insert(k, e).drop_last() =~= t.drop_last().insert(k, e));
        lemma_counted_insert(t.drop_last(), k, e);
    }
}

proof fn lemma_tally(cs: Seq<CommitNode>)
    ensures
        counted(tally(cs)) == cs.len(),
        one_per_author(tally(cs)),
        forall|i: int| 0 <= i < tally(cs).len() ==> (#[trigger] tally(cs)[i]).3 >= 1,
    decreases cs.len(),
{
    if cs.len() > 0 {
        lemma_tally(cs.drop_last());
        let t = tally(cs.drop_last());
        let c = cs.last();
        lemma_entry_of(t, c.author_email@);
        match entry_of(t, c.author_email@) {
            Some(k) => {
                lemma_counted_update(t, k, (t[k].0, t[k].1, t[k].2, t[k].3 + 1));
            },
            None => {
                assert(t.push((c.author_email@, c.author_name@, c.color@, 1nat)).drop_last() =~= t);
            },
        }
    }
}

proof fn lemma_slot_split(s: Seq<(Seq<char>, Seq<char>, Seq<char>, nat)>, n: nat)
    requires
        most_first(s),
    ensures
        forall|i: int| 0 <= i < count_slot(s, n) ==> s[i].3 >= n,
        forall|i: int| count_slot(s, n) <= i < s.len() ==> s[i].3 < n,
    decreases s.len(),
{
    lemma_count_slot(s, n);
    if s.len() > 0 {
        if s.last().3 >= n {
            assert forall|i: int| 0 <= i < s.len() implies s[i].3 >= n by {
                if i < s.len() - 1 {
                    assert(s[i].3 >= s[s.len() - 1].3);
                }
            }
        } else {
            let d = s.drop_last();
            assert(most_first(d)) by {
                assert forall|i: int, j: int| 0 <= i < j < d.len() implies d[i].3 >= d[j].3 by {
                    assert(d[i] == s[i] && d[j] == s[j]);
                }
            }
            lemma_slot_split(d, n);
            lemma_count_slot(d, n);
            assert forall|i: int| 0 <= i < count_slot(s, n) implies s[i].3 >= n by {
                assert(s[i] == d[i]);
            }
            assert forall|i: int| count_slot(s, n) <= i < s.len() implies s[i].3 < n by {
                if i < s.len() - 1 {
                    assert(s[i] == d[i]);
                }
            }
        }
    }
}

proof fn lemma_insert_contains(s: Seq<(Seq<char>, Seq<char>, Seq<char>, nat)>, k: int, e: (Seq<char>, Seq<char>, Seq<char>, nat))
    requires
        0 <= k <= s.len(),
    ensures
        forall|x: (Seq<char>, Seq<char>, Seq<char>, nat)| s.insert(k, e).contains(x) <==> (s.contains(x) || x == e),
{
    let u = s.insert(k, e);
    assert forall|x: (Seq<char>, Seq<char>, Seq<char>, nat)| u.contains(x) implies (s.contains(x) || x == e) by {
        let p = choose|p: int| 0 <= p < u.len() && u[p] == x;
        if p < k {
            assert(s[p] == x);
        } else if p > k {
            assert(s[p - 1] == x);
        }
    }
    assert forall|x: (Seq<char>, Seq<char>, Seq<char>, nat)| (s.contains(x) || x == e) implies u.contains(x) by {
        if x == e {
            assert(u[k] == e);
        } else {
            let p = choose|p: int| 0 <= p < s.len() && s[p] == x;
            if p < k {
                assert(u[p] == x);
            } else {
                assert(u[p + 1] == x);
            }
        }
    }
}

#[verifier::spinoff_prover]
#[verifier::rlimit(40)]
proof fn lemma_by_count(t: Seq<(Seq<char>, Seq<char>, Seq<char>, nat)>)
    ensures
        most_first(by_count(t)),
        counted(by_count(t)) == counted(t),
        by_count(t).len() == t.len(),
        forall|x: (Seq<char>, Seq<char>, Seq<char>, nat)| by_count(t).contains(x) <==> t.contains(x),
        one_per_author(t) ==> one_per_author(by_count(t)),
    decreases t.len(),
{
    lemma_by_count_len(t);
    if t.len() > 0 {
        let d = t.drop_last();
        let e = t.last();
        lemma_by_count(d);
        let s = by_count(d);
        lemma_count_slot(s, e.3);
        let k = count_slot(s, e.3);
        lemma_slot_split(s, e.3);
        let u = s.insert(k, e);
        assert forall|i: int, j: int| 0 <= i < j < u.len() implies u[i].3 >= u[j].3 by {
            if j < k {
            } else if j == k {
            } else if i < k {
                assert(u[j] == s[j - 1]);
            } else if i == k {
                assert(u[j] == s[j - 1]);
            } else {
                assert(u[i] == s[i - 1]);
                assert(u[j] == s[j - 1]);
            }
        }
        lemma_counted_insert(s, k, e);
        lemma_insert_contains(s, k, e);
        assert forall|x: (Seq<char>, Seq<char>, Seq<char>, nat)| t.contains(x) <==> (d.contains(x) || x == e) by {
            if t.contains(x) {
                let p = choose|p: int| 0 <= p < t.len() && t[p] == x;
                if p < t.len() - 1 {
                    assert(d[p] == x);
                }
            }
            if d.contains(x) {
                let p = choose|p: int| 0 <= p < d.len() && d[p] == x;
                assert(t[p] == x);
            }
            if x == e {
                assert(t[t.len() - 1] == x);
            }
        }
        if one_per_author(t) {
            assert(one_per_author(d)) by {
                assert forall|i: int, j: int| 0 <= i < j < d.len() implies d[i].0 != d[j].0 by {
                    assert(d[i] == t[i] && d[j] == t[j]);
                }
            }
            assert forall|i: int| 0 <= i < s.len() implies s[i].0 != e.0 by {
                assert(s.contains(s[i]));
                assert(d.contains(s[i]));
                let p = choose|p: int| 0 <= p < d.len() && d[p] == s[i];
                assert(t[p] == s[i]);
                assert(t[p].0 != t[t.len() - 1].0);
            }
            assert forall|i: int, j: int| 0 <= i < j < u.len() implies u[i].0 != u[j].0 by {
                if j < k {
                } else if j == k {
                } else if i < k {
                    assert(u[j] == s[j - 1]);
                } else if i == k {
                    assert(u[j] == s[j - 1]);
                } else {
                    assert(u[i] == s[i - 1]);
                    assert(u[j] == s[j - 1]);
                }
            }
        }
    }
}

/// The leaderboard counts every commit once, has one entry per author, and
/// lists authors with more commits first.
pub proof fn lemma_leaderboard(cs: Seq<CommitNode>)
    ensures
        counted(leaderboard(cs)) == cs.len(),
        most_first(leaderboard(cs)),
        one_per_author(leaderboard(cs)),
{
    lemma_tally(cs);
    lemma_by_count(tally(cs));
}


// ── Heatmap ─────────────────────────────────────────────────────────────────

/// Seconds in a day.
pub const SECS_PER_DAY: i64 = 86400;

/// Weeks shown by the heatmap.
pub const HEAT_WEEKS: usize = 52;

/// The UTC day of a time `secs` seconds after the epoch, counted in days
/// from 1970-01-01 (the date a UTC timestamp falls on).
pub open spec fn day_number(secs: i64) -> int {
    secs as int / SECS_PER_DAY as int
}

/// Day of the week of day `day`, Monday being 0 (1970-01-01 was a
/// Thursday).
pub open spec fn weekday(day: int) -> int {
    (day + 3) % 7
}

/// Commits of `cs` made on day `day`.
pub open spec fn day_count(cs: Seq<CommitNode>, day: int) -> nat
    decreases cs.len(),
{
    if cs.len() == 0 {
        0
    } else {
        day_count(cs.drop_last(), day) + if day_number(cs.last().timestamp) == day {
            1nat
        } else {
            0nat
        }
    }
}

/// The days on which commits of `cs` were made.
pub open spec fn active_days(cs: Seq<CommitNode>) -> Set<int> {
    Set::new(|d: int| exists|i: int| 0 <= i < cs.len() && day_number(#[trigger] cs[i].timestamp) == d)
}

/// The first day shown: the Monday 51 weeks before the week of `today`.
pub open spec fn first_shown_day(today: int) -> int {
    today - weekday(today) - 7 * (HEAT_WEEKS as int - 1)
}

/// Commits of `cs` in cell (`week`, `day`) of the heatmap ending with the
/// week of `today`; days after `today` show none.
pub open spec fn heat_cell(cs: Seq<CommitNode>, today: int, week: int, day: int) -> nat {
    let d = first_shown_day(today) + 7 * week + day;
    if d <= today {
        day_count(cs, d)
    } else {
        0
    }
}

/// How strongly a heatmap cell is coloured.
#[derive(Debug, Clone, Copy, PartialEq, Eq)]
pub enum HeatLevel {
    /// No commits.
    Empty,
    /// At most a quarter of the busiest day.
    Low,
    /// More than a quarter, at most half.
    Medium,
    /// More than half, at most three quarters.
    High,
    /// More than three quarters.
    Top,
}

/// The level of a day with `count` commits when the busiest day had `peak`.
pub open spec fn heat_level_of(count: nat, peak: nat) -> HeatLevel {
    if count == 0 {
        HeatLevel::Empty
    } else if 4 * count > 3 * peak {
        HeatLevel::Top
    } else if 2 * count > peak {
        HeatLevel::High
    } else if 4 * count > peak {
        HeatLevel::Medium
    } else {
        HeatLevel::Low
    }
}

/// The busiest day's count: the largest count in `t` (second items), at
/// least `floor`.
pub open spec fn peak_of(t: Seq<(i64, usize)>, floor: nat) -> nat
    decreases t.len(),
{
    if t.len() == 0 {
        floor
    } else {
        let p = peak_of(t.drop_last(), floor);
        if t.last().1 as nat > p {
            t.last().1 as nat
        } else {
            p
        }
    }
}

/// The UTC day of `secs` (see `day_number`).
pub fn day_of(secs: i64) -> (d: i64)
    ensures
        d == day_number(secs),
{
    if secs >= 0 {
        secs / SECS_PER_DAY
    } else {
        let n: i64 = -(secs + 1);
        let q: i64 = n / SECS_PER_DAY;
        assert(day_number(secs) == -q - 1) by (nonlinear_arith)
            requires
                n == -(secs + 1),
                q == n / 86400,
                n >= 0,
        {
            assert(n - 86400 * q >= 0 && n - 86400 * q < 86400);
            assert(secs == -86400 * q - 1 - (n - 86400 * q));
        }
        -q - 1
    }
}

proof fn lemma_day_count_push(cs: Seq<CommitNode>, c: CommitNode, day: int)
    ensures
        day_count(cs.push(c), day) == day_count(cs, day) + if day_number(c.timestamp) == day {
            1nat
        } else {
            0nat
        },
{
    assert(cs.push(c).drop_last() =~= cs);
}

proof fn lemma_day_count_bound(cs: Seq<CommitNode>, day: int)
    ensures
        day_count(cs, day) <= cs.len(),
        day_count(cs, day) > 0 ==> active_days(cs).contains(day),
    decreases cs.len(),
{
    if cs.len() > 0 {
        lemma_day_count_bound(cs.drop_last(), day);
        if day_count(cs.drop_last(), day) > 0 {
            let i = choose|i: int| 0 <= i < cs.drop_last().len() && day_number(#[trigger] cs.drop_last()[i].timestamp) == day;
            assert(cs[i] == cs.drop_last()[i]);
        }
        if day_number(cs.last().timestamp) == day {
            assert(cs[cs.len() - 1] == cs.last());
        }
    }
}

/// The counts of a tally, added up.
pub open spec fn tally_total(t: Seq<(i64, usize)>) -> nat
    decreases t.len(),
{
    if t.len() == 0 {
        0
    } else {
        tally_total(t.drop_last()) + t.last().1 as nat
    }
}

/// Raising one count of a tally by one raises its total by one.
proof fn lemma_tally_total_bump(t: Seq<(i64, usize)>, k: int, e: (i64, usize))
    requires
        0 <= k < t.len(),
        e.1 == t[k].1 + 1,
    ensures
        tally_total(t.update(k, e)) == tally_total(t) + 1,
    decreases t.len(),
{
    if k == t.len() - 1 {
        assert(t.update(k, e).drop_last() =~= t.drop_last());
    } else {
        lemma_tally_total_bump(t.drop_last(), k, e);
        assert(t.update(k, e).drop_last() =~= t.drop_last().update(k, e));
    }
}

/// Each day with commits and its number of commits, days in order of their
/// first commit; every commit is counted once.
pub fn day_tally(commits: &Vec<CommitNode>) -> (t: Vec<(i64, usize)>)
    ensures
        forall|i: int| 0 <= i < t@.len() ==> #[trigger] t@[i].1 == day_count(commits@, t@[i].0 as int),
        forall|i: int, j: int| 0 <= i < j < t@.len() ==> t@[i].0 != t@[j].0,
        forall|d: int| #[trigger] active_days(commits@).contains(d) <==> exists|i: int| 0 <= i < t@.len() && t@[i].0 == d,
        tally_total(t@) == commits@.len(),
{
    let mut t: Vec<(i64, usize)> = Vec::new();
    let mut i: usize = 0;
    while i < commits.len()
        invariant
            i <= commits@.len(),
            forall|k: int| 0 <= k < t@.len() ==> #[trigger] t@[k].1 == day_count(commits@.take(i as int), t@[k].0 as int),
            forall|k: int, j: int| 0 <= k < j < t@.len() ==> t@[k].0 != t@[j].0,
            forall|d: int| #[trigger] active_days(commits@.take(i as int)).contains(d) <==> exists|k: int| 0 <= k < t@.len() && t@[k].0 == d,
            tally_total(t@) == i,
        decreases commits@.len() - i,
    {
        let d = day_of(commits[i].timestamp);
        let ghost pre = commits@.take(i as int);
        let ghost post = commits@.take(i + 1);
        assert(post =~= pre.push(commits@[i as int]));
        let mut k: usize = 0;
        while k < t.len() && t[k].0 != d
            invariant
                k <= t@.len(),
                forall|j: int| 0 <= j < k ==> t@[j].0 != d,
            decreases t@.len() - k,
        {
            k += 1;
        }
        let ghost before = t@;
        proof {
            lemma_day_count_bound(pre, d as int);
        }
        if k < t.len() {
            let n = t[k].1;
            assert(n == day_count(pre, d as int));
            t.set(k, (d, n + 1));
            proof {
                lemma_tally_total_bump(before, k as int, (d, (n + 1) as usize));
            }
        } else {
            assert(!active_days(pre).contains(d as int));
            t.push((d, 1));
            assert(t@.drop_last() =~= before);
        }
        proof {
            assert forall|m: int| 0 <= m < t@.len() implies #[trigger] t@[m].1 == day_count(post, t@[m].0 as int) by {
                lemma_day_count_push(pre, commits@[i as int], t@[m].0 as int);
                if m < before.len() && m != k {
                    assert(t@[m] == before[m]);
                }
                if k == before.len() && m == k {
                    lemma_day_count_bound(pre, d as int);
                }
            }
            assert forall|dd: int| #[trigger] active_days(post).contains(dd) <==> exists|m: int| 0 <= m < t@.len() && t@[m].0 == dd by {
                if active_days(post).contains(dd) {
                    let j = choose|j: int| 0 <= j < post.len() && day_number(#[trigger] post[j].timestamp) == dd;
                    if j < pre.len() {
                        assert(pre[j] == post[j]);
                        assert(active_days(pre).contains(dd));
                        let m = choose|m: int| 0 <= m < before.len() && before[m].0 == dd;
                        assert(t@[m].0 == dd);
                    } else {
                        assert(t@[k as int].0 == dd);
                    }
                }
                if exists|m: int| 0 <= m < t@.len() && t@[m].0 == dd {
                    let m = choose|m: int| 0 <= m < t@.len() && t@[m].0 == dd;
                    if m == k {
                        assert(post[i as int] == commits@[i as int]);
                        assert(day_number(post[i as int].timestamp) == dd);
                    } else {
                        assert(t@[m] == before[m]);
                        assert(active_days(pre).contains(dd));
                        let j = choose|j: int| 0 <= j < pre.len() && day_number(#[trigger] pre[j].timestamp) == dd;
                        assert(post[j] == pre[j]);
                    }
                }
            }
        }
        i += 1;
    }
    assert(commits@.take(commits@.len() as int) =~= commits@);
    t
}

/// Commits on the busiest day of a tally: its largest count, or 1 when it
/// is empty.
pub fn peak_day_count(t: &Vec<(i64, usize)>) -> (p: usize)
    ensures
        p == peak_of(t@, 1),
{
    let mut p: usize = 1;
    let mut i: usize = 0;
    while i < t.len()
        invariant
            i <= t@.len(),
            p == peak_of(t@.take(i as int), 1),
        decreases t@.len() - i,
    {
        assert(t@.take(i + 1).drop_last() =~= t@.take(i as int));
        if t[i].1 > p {
            p = t[i].1;
        }
        i += 1;
    }
    assert(t@.take(t@.len() as int) =~= t@);
    p
}

/// The level of a day with `count` commits when the busiest day had `peak`
/// (see `heat_level_of`).
pub fn heat_level(count: usize, peak: usize) -> (l: HeatLevel)
    ensures
        l == heat_level_of(count as nat, peak as nat),
{
    let c = count as u128;
    let p = peak as u128;
    if count == 0 {
        HeatLevel::Empty
    } else if 4 * c > 3 * p {
        HeatLevel::Top
    } else if 2 * c > p {
        HeatLevel::High
    } else if 4 * c > p {
        HeatLevel::Medium
    } else {
        HeatLevel::Low
    }
}

/// The heatmap of the 52 weeks ending with the week of `today` (a day
/// number, see `day_number`): one list of seven counts of `commits`, Monday
/// first, per week, oldest week first.
pub fn heat_grid(commits: &Vec<CommitNode>, today: i64) -> (g: Vec<Vec<usize>>)
    requires
        -1_000_000_000 <= today <= 1_000_000_000,
    ensures
        g@.len() == HEAT_WEEKS,
        forall|w: int| 0 <= w < HEAT_WEEKS ==> (#[trigger] g@[w])@.len() == 7,
        forall|w: int, d: int| 0 <= w < HEAT_WEEKS && 0 <= d < 7 ==> (#[trigger] g@[w]@[d]) as nat == heat_cell(commits@, today as int, w, d),
{
    let t = day_tally(commits);
    let tally = &t;
    let wd: i64 = (today % 7 + 7 + 3) % 7;
    assert(wd == weekday(today as int));
    let first: i64 = today - wd - 7 * 51;
    let mut g: Vec<Vec<usize>> = Vec::new();
    let mut w: usize = 0;
    while w < HEAT_WEEKS
        invariant
            w <= HEAT_WEEKS,
            g@.len() == w,
            -1_000_000_000 <= today <= 1_000_000_000,
            first == first_shown_day(today as int),
            forall|i: int| 0 <= i < tally@.len() ==> #[trigger] tally@[i].1 == day_count(commits@, tally@[i].0 as int),
            forall|d: int| #[trigger] active_days(commits@).contains(d) ==> exists|i: int| 0 <= i < tally@.len() && tally@[i].0 == d,
            forall|x: int| 0 <= x < w ==> (#[trigger] g@[x])@.len() == 7,
            forall|x: int, d: int| 0 <= x < w && 0 <= d < 7 ==> (#[trigger] g@[x]@[d]) as nat == heat_cell(commits@, today as int, x, d),
        decreases HEAT_WEEKS - w,
    {
        let mut week: Vec<usize> = Vec::new();
        let mut d: usize = 0;
        while d < 7
            invariant
                w < HEAT_WEEKS,
                d <= 7,
                week@.len() == d,
                -1_000_000_000 <= today <= 1_000_000_000,
                first == first_shown_day(today as int),
                forall|i: int| 0 <= i < tally@.len() ==> #[trigger] tally@[i].1 == day_count(commits@, tally@[i].0 as int),
                forall|dd: int| #[trigger] active_days(commits@).contains(dd) ==> exists|i: int| 0 <= i < tally@.len() && tally@[i].0 == dd,
                forall|x: int| 0 <= x < d ==> (#[trigger] week@[x]) as nat == heat_cell(commits@, today as int, w as int, x),
            decreases 7 - d,
        {
            let day: i64 = first + 7 * (w as i64) + (d as i64);
            let mut count: usize = 0;
            if day <= today {
                let mut k: usize = 0;
                while k < tally.len() && tally[k].0 != day
                    invariant
                        k <= tally@.len(),
                        forall|j: int| 0 <= j < k ==> tally@[j].0 != day,
                    decreases tally@.len() - k,
                {
                    k += 1;
                }
                if k < tally.len() {
                    count = tally[k].1;
                } else {
                    proof {
                        lemma_day_count_bound(commits@, day as int);
                        if day_count(commits@, day as int) > 0 {
                            assert(active_days(commits@).contains(day as int));
                            let j = choose|j: int| 0 <= j < tally@.len() && tally@[j].0 == day;
                        }
                    }
                }
            }
            week.push(count);
            d += 1;
        }
        g.push(week);
        w += 1;
    }
    g
}

/// The weeks among the first `n` of `months` (one month per week) that
/// start a new month: the first week, and each week whose month differs
/// from that of the week before.
pub open spec fn month_starts(months: Seq<u32>, n: nat) -> Seq<usize>
    decreases n,
{
    if n == 0 {
        Seq::empty()
    } else {
        let s = month_starts(months, (n - 1) as nat);
        if n == 1 || months[n - 1] != months[n - 2] {
            s.push((n - 1) as usize)
        } else {
            s
        }
    }
}

/// The weeks that get a month's name above them (see `month_starts`).
pub fn month_label_weeks(months: &Vec<u32>) -> (r: Vec<usize>)
    ensures
        r@ == month_starts(months@, months@.len()),
{
    let mut r: Vec<usize> = Vec::new();
    let mut w: usize = 0;
    while w < months.len()
        invariant
            w <= months@.len(),
            r@ == month_starts(months@, w as nat),
        decreases months@.len() - w,
    {
        if w == 0 || months[w] != months[w - 1] {
            r.push(w);
        }
        w += 1;
    }
    r
}

// ── Laws of the heatmap ─────────────────────────────────────────────────────

/// The busiest day's count is at least every day's count and at least 1.
pub proof fn lemma_peak_bounds(t: Seq<(i64, usize)>)
    ensures
        peak_of(t, 1) >= 1,
        forall|i: int| 0 <= i < t.len() ==> #[trigger] t[i].1 as nat <= peak_of(t, 1),
    decreases t.len(),
{
    if t.len() > 0 {
        lemma_peak_bounds(t.drop_last());
        assert forall|i: int| 0 <= i < t.len() implies #[trigger] t[i].1 as nat <= peak_of(t, 1) by {
            if i < t.len() - 1 {
                assert(t[i] == t.drop_last()[i]);
            }
        }
    }
}

/// A day with commits never shows as empty, and the busiest day shows at
/// the top level.
pub proof fn lemma_heat_levels(count: nat, peak: nat)
    requires
        count <= peak,
    ensures
        count > 0 ==> heat_level_of(count, peak) != HeatLevel::Empty,
        count > 0 && count == peak ==> heat_level_of(count, peak) == HeatLevel::Top,
{
}

/// Rank of a heat level, from empty (0) to top (4).
pub open spec fn level_rank(l: HeatLevel) -> int {
    match l {
        HeatLevel::Empty => 0,
        HeatLevel::Low => 1,
        HeatLevel::Medium => 2,
        HeatLevel::High => 3,
        HeatLevel::Top => 4,
    }
}

/// A day with more commits is never coloured more faintly, and the level
/// follows the quarter of the busiest day's count that a day reaches: above
/// three quarters is top, above a half high, above a quarter medium, any
/// other day with commits low.
pub proof fn lemma_heat_level_quarters(c1: nat, c2: nat, peak: nat)
    ensures
        c1 <= c2 ==> level_rank(heat_level_of(c1, peak)) <= level_rank(heat_level_of(c2, peak)),
        c1 == 0 <==> heat_level_of(c1, peak) == HeatLevel::Empty,
        c1 > 0 && c1 * 4 > peak * 3 ==> heat_level_of(c1, peak) == HeatLevel::Top,
        c1 > 0 && c1 * 4 <= peak * 3 && c1 * 2 > peak ==> heat_level_of(c1, peak) == HeatLevel::High,
        c1 > 0 && c1 * 2 <= peak && c1 * 4 > peak ==> heat_level_of(c1, peak) == HeatLevel::Medium,
        c1 > 0 && c1 * 4 <= peak ==> heat_level_of(c1, peak) == HeatLevel::Low,
{
}

/// The day of a time is the whole number of days since the epoch, rounded
/// down: the time lies within that day's 86400 seconds.
pub proof fn lemma_day_number_bounds(secs: i64)
    ensures
        day_number(secs) * 86400 <= secs < day_number(secs) * 86400 + 86400,
{
}

} // verus!
