//! GitHub sign-in (device flow) and the signed-in user's repositories.
use vstd::prelude::*;
use crate::text::{chars_of, contains_lowered, is_whitespace, lowercase, matches_lowered, to_lowercase};
use crate::updater::string_of_str;

verus! {

// ── Data ────────────────────────────────────────────────────────────────────

/// A stored access token.
#[derive(Debug, Clone, PartialEq)]
pub struct AuthToken {
    pub access_token: String,
    pub scope: String,
    pub username: Option<String>,
}

/// The start of a device-flow sign-in: the code to show the user, where to
/// enter it, and the code to poll with.
#[derive(Debug, Clone, PartialEq)]
pub struct DeviceFlowStart {
    pub user_code: String,
    pub verification_uri: String,
    pub device_code: String,
    pub interval: u64,
}

/// A repository of the signed-in user.
#[derive(Debug, Clone, PartialEq)]
pub struct GithubRepo {
    pub id: u64,
    pub full_name: String,
    pub name: String,
    pub description: Option<String>,
    pub private: bool,
    pub stargazers_count: u64,
    pub forks_count: u64,
    pub language: Option<String>,
    pub clone_url: String,
    pub html_url: String,
    pub updated: Option<String>,
    pub default_branch: String,
}

/// The signed-in user's profile.
#[derive(Debug, Clone, PartialEq)]
pub struct GithubProfile {
    pub login: String,
    pub name: Option<String>,
    pub bio: Option<String>,
    pub public_repos: u64,
    pub followers: u64,
    pub following: u64,
    pub avatar_url: String,
}

// ── Device flow ─────────────────────────────────────────────────────────────

/// What to do after one answer to a token poll.
#[derive(Debug, Clone, PartialEq)]
pub enum PollStep {
    /// Poll again after waiting this many seconds.
    Retry { wait_secs: u64 },
    /// GitHub answered with an HTML page: the device code expired.
    DeviceCodeExpired,
    /// GitHub reported `expired_token`.
    CodeExpired,
    /// GitHub reported another OAuth error.
    OAuthError { error: String },
    /// Signed in.
    Authorized { access_token: String, scope: String },
}

/// The first wait before polling: GitHub's interval, at least 5 seconds.
pub fn initial_wait(interval: u64) -> (w: u64)
    ensures
        w == (if interval < 5 { 5 } else { interval }),
{
    if interval < 5 {
        5
    } else {
        interval
    }
}

/// The first non-whitespace character of `s` is `'<'`: the answer is an
/// HTML page rather than JSON.
pub open spec fn looks_like_html(s: Seq<char>) -> bool {
    exists|i: int|
        0 <= i < s.len() && s[i] == '<' && forall|j: int| 0 <= j < i ==> is_whitespace(#[trigger] s[j])
}

/// Whether a poll answer is an HTML page (its text, after leading
/// whitespace, starts with `'<'`), which GitHub sends once the device code
/// has expired.
pub fn is_html_answer(body: &str) -> (b: bool)
    ensures
        b == looks_like_html(body@),
{
    let v = chars_of(body);
    let mut i: usize = 0;
    while i < v.len() && crate::text::char_is_whitespace(v[i])
        invariant
            i <= v@.len(),
            v@ == body@,
            forall|j: int| 0 <= j < i ==> is_whitespace(#[trigger] v@[j]),
        decreases v@.len() - i,
    {
        i += 1;
    }
    if i < v.len() && v[i] == '<' {
        true
    } else {
        assert(!looks_like_html(body@)) by {
            if looks_like_html(body@) {
                let k = choose|k: int|
                    0 <= k < body@.len() && body@[k] == '<' && forall|j: int| 0 <= j < k ==> is_whitespace(#[trigger] body@[j]);
                if k < i {
                } else if k > i {
                    assert(is_whitespace(body@[i as int]));
                }
            }
        }
        false
    }
}

/// A poll decision as plain values.
pub enum PollModel {
    Retry(u64),
    DeviceCodeExpired,
    CodeExpired,
    OAuthError(Seq<char>),
    Authorized(Seq<char>, Seq<char>),
}

impl View for PollStep {
    type V = PollModel;

    open spec fn view(&self) -> PollModel {
        match self {
            PollStep::Retry { wait_secs } => PollModel::Retry(*wait_secs),
            PollStep::DeviceCodeExpired => PollModel::DeviceCodeExpired,
            PollStep::CodeExpired => PollModel::CodeExpired,
            PollStep::OAuthError { error } => PollModel::OAuthError(error@),
            PollStep::Authorized { access_token, scope } => PollModel::Authorized(access_token@, scope@),
        }
    }
}

/// The text of an optional string slice.
pub open spec fn opt_str(o: Option<&str>) -> Option<Seq<char>> {
    match o {
        Some(s) => Some(s@),
        None => None,
    }
}

/// The decision on one JSON poll answer carrying OAuth `error`,
/// `access_token` and `scope`, after waiting `wait_secs`.
pub open spec fn poll_decision(
    wait_secs: u64,
    error: Option<Seq<char>>,
    token: Option<Seq<char>>,
    scope: Option<Seq<char>>,
) -> PollModel {
    match error {
        Some(e) => if e == "authorization_pending"@ {
            PollModel::Retry(wait_secs)
        } else if e == "slow_down"@ {
            PollModel::Retry((wait_secs + 5) as u64)
        } else if e == "expired_token"@ {
            PollModel::CodeExpired
        } else {
            PollModel::OAuthError(e)
        },
        None => match token {
            Some(t) => PollModel::Authorized(
                t,
                match scope {
                    Some(x) => x,
                    None => Seq::empty(),
                },
            ),
            None => PollModel::Retry(wait_secs),
        },
    }
}

/// Each answer to a token poll is handled by its kind: pending keeps the
/// same wait, `slow_down` waits exactly 5 seconds longer, `expired_token`
/// ends with an expired code, any other error ends with that error, and
/// without an error a token signs in with its scope (empty when absent),
/// while an answer with neither polls again after the same wait.
pub proof fn lemma_poll_answers(wait_secs: u64, e: Seq<char>, token: Seq<char>, scope: Option<Seq<char>>)
    requires
        wait_secs + 5 <= u64::MAX,
    ensures
        poll_decision(wait_secs, Some("authorization_pending"@), None, None) == PollModel::Retry(wait_secs),
        poll_decision(wait_secs, Some("slow_down"@), None, None) == PollModel::Retry((wait_secs + 5) as u64),
        poll_decision(wait_secs, Some("expired_token"@), None, None) == PollModel::CodeExpired,
        e != "authorization_pending"@ && e != "slow_down"@ && e != "expired_token"@ ==> poll_decision(
            wait_secs,
            Some(e),
            Some(token),
            scope,
        ) == PollModel::OAuthError(e),
        poll_decision(wait_secs, None, Some(token), scope) == PollModel::Authorized(
            token,
            match scope {
                Some(x) => x,
                None => Seq::empty(),
            },
        ),
        poll_decision(wait_secs, None, None, scope) == PollModel::Retry(wait_secs),
{
    reveal_strlit("authorization_pending");
    reveal_strlit("slow_down");
    reveal_strlit("expired_token");
    assert("slow_down"@.len() == 9 && "authorization_pending"@.len() == 21 && "expired_token"@.len() == 13);
    assert("slow_down"@ != "authorization_pending"@);
    assert("expired_token"@ != "authorization_pending"@);
    assert("expired_token"@ != "slow_down"@);
}

/// What to do after a JSON poll answer: keep waiting while authorization is
/// pending (5 seconds longer after `slow_down`), stop on `expired_token` or
/// any other error, and finish once an access token arrives (its scope
/// empty when absent); an answer with neither polls again.
pub fn poll_step(
    wait_secs: u64,
    error: Option<&str>,
    access_token: Option<&str>,
    scope: Option<&str>,
) -> (s: PollStep)
    requires
        opt_str(error) == Some("slow_down"@) ==> wait_secs + 5 <= u64::MAX,
    ensures
        s@ == poll_decision(wait_secs, opt_str(error), opt_str(access_token), opt_str(scope)),
{
    proof {
        reveal_strlit("authorization_pending");
        reveal_strlit("slow_down");
        reveal_strlit("expired_token");
    }
    match error {
        Some(e) => {
            if crate::text::str_eq(e, "authorization_pending") {
                PollStep::Retry { wait_secs }
            } else if crate::text::str_eq(e, "slow_down") {
                PollStep::Retry { wait_secs: wait_secs + 5 }
            } else if crate::text::str_eq(e, "expired_token") {
                PollStep::CodeExpired
            } else {
                PollStep::OAuthError { error: string_of_str(e) }
            }
        },
        None => match access_token {
            Some(t) => {
                let sc = match scope {
                    Some(x) => string_of_str(x),
                    None => String::new(),
                };
                PollStep::Authorized { access_token: string_of_str(t), scope: sc }
            },
            None => PollStep::Retry { wait_secs },
        },
    }
}

// ── Repository pages ────────────────────────────────────────────────────────

/// Repositories asked for per page.
pub const REPOS_PER_PAGE: usize = 100;

/// The page to ask for after page `page` brought `received` repositories:
/// none once a page is not full.
pub fn next_page(page: u32, received: usize) -> (r: Option<u32>)
    requires
        received < REPOS_PER_PAGE || page < u32::MAX,
    ensures
        received < REPOS_PER_PAGE ==> r is None,
        received >= REPOS_PER_PAGE ==> r == Some((page + 1) as u32),
{
    if received < REPOS_PER_PAGE {
        None
    } else {
        Some(page + 1)
    }
}

// ── Listing the user's repositories ─────────────────────────────────────────

/// Orders of the repository list.
#[derive(Debug, Clone, Copy, PartialEq, Eq)]
pub enum RepoSort {
    /// As GitHub lists them (most recently updated first).
    Updated,
    /// Most stars first.
    Stars,
    /// By name.
    Name,
}

/// The description of a repository, or the empty text.
pub open spec fn description_text(r: GithubRepo) -> Seq<char> {
    match r.description {
        Some(d) => d@,
        None => Seq::empty(),
    }
}

/// Repository `r` is listed for the lower-cased query `q`.
pub open spec fn repo_listed(r: GithubRepo, q: Seq<char>, show_private: bool) -> bool {
    (show_private || !r.private) && (q.len() == 0 || matches_lowered(r.name@, q)
        || matches_lowered(description_text(r), q))
}

/// The repositories of `rs` that are listed, in order.
pub open spec fn listed_repos(rs: Seq<GithubRepo>, q: Seq<char>, show_private: bool) -> Seq<GithubRepo>
    decreases rs.len(),
{
    if rs.len() == 0 {
        Seq::empty()
    } else if repo_listed(rs.last(), q, show_private) {
        listed_repos(rs.drop_last(), q, show_private).push(rs.last())
    } else {
        listed_repos(rs.drop_last(), q, show_private)
    }
}

/// Position at which a repository with `stars` stars goes into `s`, which is
/// ordered by stars, most first: after every repository with at least as
/// many stars.
pub open spec fn stars_slot(s: Seq<GithubRepo>, stars: u64) -> int
    decreases s.len(),
{
    if s.len() == 0 {
        0
    } else if s.last().stargazers_count >= stars {
        s.len() as int
    } else {
        stars_slot(s.drop_last(), stars)
    }
}

/// `s` ordered by stars, most first, keeping the order of repositories with
/// the same number of stars (a stable sort).
pub open spec fn by_stars(s: Seq<GithubRepo>) -> Seq<GithubRepo>
    decreases s.len(),
{
    if s.len() == 0 {
        Seq::empty()
    } else {
        let sorted = by_stars(s.drop_last());
        sorted.insert(stars_slot(sorted, s.last().stargazers_count), s.last())
    }
}

/// `a` comes before or with `b` in code-point order (`Ord` on `str`).
pub open spec fn text_le(a: Seq<char>, b: Seq<char>) -> bool
    decreases a.len(),
{
    if a.len() == 0 {
        true
    } else if b.len() == 0 {
        false
    } else if a[0] != b[0] {
        (a[0] as u32) < (b[0] as u32)
    } else {
        text_le(a.drop_first(), b.drop_first())
    }
}

/// Position at which a repository named `name` goes into `s`, which is
/// ordered by name: after every repository whose name is not greater.
pub open spec fn name_slot(s: Seq<GithubRepo>, name: Seq<char>) -> int
    decreases s.len(),
{
    if s.len() == 0 {
        0
    } else if text_le(s.last().name@, name) {
        s.len() as int
    } else {
        name_slot(s.drop_last(), name)
    }
}

/// `s` ordered by name, keeping the order of equal names (a stable sort).
pub open spec fn by_name(s: Seq<GithubRepo>) -> Seq<GithubRepo>
    decreases s.len(),
{
    if s.len() == 0 {
        Seq::empty()
    } else {
        let sorted = by_name(s.drop_last());
        sorted.insert(name_slot(sorted, s.last().name@), s.last())
    }
}

/// The repository list shown for query `q` (lower-cased) and order `sort`.
pub open spec fn shown_repos(rs: Seq<GithubRepo>, q: Seq<char>, show_private: bool, sort: RepoSort) -> Seq<GithubRepo> {
    let l = listed_repos(rs, q, show_private);
    match sort {
        RepoSort::Updated => l,
        RepoSort::Stars => by_stars(l),
        RepoSort::Name => by_name(l),
    }
}

proof fn lemma_slot_bounds(s: Seq<GithubRepo>, stars: u64, name: Seq<char>)
    ensures
        0 <= stars_slot(s, stars) <= s.len(),
        0 <= name_slot(s, name) <= s.len(),
    decreases s.len(),
{
    if s.len() > 0 {
        lemma_slot_bounds(s.drop_last(), stars, name);
    }
}

proof fn lemma_sorted_len(s: Seq<GithubRepo>)
    ensures
        by_stars(s).len() == s.len(),
        by_name(s).len() == s.len(),
    decreases s.len(),
{
    if s.len() > 0 {
        lemma_sorted_len(s.drop_last());
        lemma_slot_bounds(by_stars(s.drop_last()), s.last().stargazers_count, s.last().name@);
        lemma_slot_bounds(by_name(s.drop_last()), s.last().stargazers_count, s.last().name@);
    }
}

/// An owned copy of an optional string.
fn copy_opt(o: &Option<String>) -> (r: Option<String>)
    ensures
        r == *o,
{
    match o {
        Some(s) => Some(s.clone()),
        None => None,
    }
}

/// An owned copy of a repository record.
pub fn copy_repo(r: &GithubRepo) -> (c: GithubRepo)
    ensures
        c == *r,
{
    GithubRepo {
        id: r.id,
        full_name: r.full_name.clone(),
        name: r.name.clone(),
        description: copy_opt(&r.description),
        private: r.private,
        stargazers_count: r.stargazers_count,
        forks_count: r.forks_count,
        language: copy_opt(&r.language),
        clone_url: r.clone_url.clone(),
        html_url: r.html_url.clone(),
        updated: copy_opt(&r.updated),
        default_branch: r.default_branch.clone(),
    }
}

/// Whether `a` comes before or with `b` in code-point order.
fn str_le(a: &str, b: &str) -> (r: bool)
    ensures
        r == text_le(a@, b@),
{
    let av = chars_of(a);
    let bv = chars_of(b);
    let mut i: usize = 0;
    assert(av@.skip(0) =~= av@);
    assert(bv@.skip(0) =~= bv@);
    loop
        invariant
            i <= av@.len(),
            i <= bv@.len(),
            text_le(a@, b@) == text_le(av@.skip(i as int), bv@.skip(i as int)),
            av@ == a@,
            bv@ == b@,
        decreases av@.len() - i,
    {
        if i == av.len() {
            return true;
        }
        if i == bv.len() {
            return false;
        }
        if av[i] != bv[i] {
            return (av[i] as u32) < (bv[i] as u32);
        }
        assert(av@.skip(i as int).drop_first() =~= av@.skip(i + 1));
        assert(bv@.skip(i as int).drop_first() =~= bv@.skip(i + 1));
        i += 1;
    }
}

/// The signed-in user's repositories as listed: private ones only when
/// `show_private`, only those whose name or description contains `query`
/// (ignoring case; all for an empty query), then ordered by `sort` (stable).
pub fn displayed_repos(repos: &Vec<GithubRepo>, query: &str, show_private: bool, sort: RepoSort) -> (r: Vec<GithubRepo>)
    ensures
        r@ == shown_repos(repos@, lowercase(query@), show_private, sort),
{
    let q = to_lowercase(query);
    let qv = chars_of(q.as_str());
    let mut list: Vec<GithubRepo> = Vec::new();
    let mut i: usize = 0;
    while i < repos.len()
        invariant
            i <= repos@.len(),
            qv@ == lowercase(query@),
            list@ == listed_repos(repos@.take(i as int), qv@, show_private),
        decreases repos@.len() - i,
    {
        let r = &repos[i];
        let desc_listed = match &r.description {
            Some(d) => contains_lowered(d.as_str(), qv.as_slice()),
            None => contains_lowered("", qv.as_slice()),
        };
        proof {
            reveal_strlit("");
            assert(""@ =~= Seq::<char>::empty());
            assert(desc_listed == matches_lowered(description_text(*r), qv@));
        }
        let keep = (show_private || !r.private) && (qv.len() == 0 || contains_lowered(
            r.name.as_str(),
            qv.as_slice(),
        ) || desc_listed);
        assert(repos@.take(i + 1).drop_last() =~= repos@.take(i as int));
        assert(repos@.take(i + 1).last() == repos@[i as int]);
        if keep {
            list.push(copy_repo(r));
        }
        i += 1;
    }
    assert(repos@.take(repos@.len() as int) =~= repos@);
    match sort {
        RepoSort::Updated => list,
        RepoSort::Stars => sort_by_stars(&list),
        RepoSort::Name => sort_by_name(&list),
    }
}

/// `s` ordered by stars, most first; equal counts keep their order.
fn sort_by_stars(s: &Vec<GithubRepo>) -> (r: Vec<GithubRepo>)
    ensures
        r@ == by_stars(s@),
{
    let mut out: Vec<GithubRepo> = Vec::new();
    let mut i: usize = 0;
    while i < s.len()
        invariant
            i <= s@.len(),
            out@ == by_stars(s@.take(i as int)),
        decreases s@.len() - i,
    {
        let stars = s[i].stargazers_count;
        let mut k = out.len();
        proof {
            lemma_sorted_len(s@.take(i as int));
            assert(out@.take(k as int) =~= out@);
        }
        while k > 0 && out[k - 1].stargazers_count < stars
            invariant
                k <= out@.len(),
                stars_slot(out@, stars) == stars_slot(out@.take(k as int), stars),
            decreases k,
        {
            assert(out@.take(k as int).drop_last() =~= out@.take(k - 1));
            k -= 1;
        }
        proof {
            if k > 0 {
                assert(out@.take(k as int).last() == out@[k - 1]);
            }
            assert(out@.take(k as int).len() == k);
            assert(stars_slot(out@, stars) == k);
        }
        out.insert(k, copy_repo(&s[i]));
        assert(s@.take(i + 1).drop_last() =~= s@.take(i as int));
        assert(s@.take(i + 1).last() == s@[i as int]);
        i += 1;
    }
    assert(s@.take(s@.len() as int) =~= s@);
    out
}

/// `s` ordered by name; equal names keep their order.
fn sort_by_name(s: &Vec<GithubRepo>) -> (r: Vec<GithubRepo>)
    ensures
        r@ == by_name(s@),
{
    let mut out: Vec<GithubRepo> = Vec::new();
    let mut i: usize = 0;
    while i < s.len()
        invariant
            i <= s@.len(),
            out@ == by_name(s@.take(i as int)),
        decreases s@.len() - i,
    {
        let name = s[i].name.as_str();
        let mut k = out.len();
        proof {
            lemma_sorted_len(s@.take(i as int));
            assert(out@.take(k as int) =~= out@);
        }
        while k > 0 && !str_le(out[k - 1].name.as_str(), name)
            invariant
                k <= out@.len(),
                name_slot(out@, name@) == name_slot(out@.take(k as int), name@),
            decreases k,
        {
            assert(out@.take(k as int).drop_last() =~= out@.take(k - 1));
            k -= 1;
        }
        proof {
            if k > 0 {
                assert(out@.take(k as int).last() == out@[k - 1]);
            }
            assert(out@.take(k as int).len() == k);
            assert(name_slot(out@, name@) == k);
        }
        out.insert(k, copy_repo(&s[i]));
        assert(s@.take(i + 1).drop_last() =~= s@.take(i as int));
        assert(s@.take(i + 1).last() == s@[i as int]);
        i += 1;
    }
    assert(s@.take(s@.len() as int) =~= s@);
    out
}

// ── Laws on the repository list ────────────────────────────────────────────

/// Repositories are ordered by stars, most first.
pub open spec fn stars_ordered(s: Seq<GithubRepo>) -> bool {
    forall|i: int, j: int| 0 <= i < j < s.len() ==> s[i].stargazers_count >= s[j].stargazers_count
}

/// Repositories are ordered by name.
pub open spec fn names_ordered(s: Seq<GithubRepo>) -> bool {
    forall|i: int, j: int| 0 <= i < j < s.len() ==> text_le(s[i].name@, s[j].name@)
}

/// `a` and `b` hold the same repositories.
pub open spec fn same_repos(a: Seq<GithubRepo>, b: Seq<GithubRepo>) -> bool {
    a.len() == b.len() && forall|x: GithubRepo| a.contains(x) <==> b.contains(x)
}

proof fn lemma_text_le_refl(a: Seq<char>)
    ensures
        text_le(a, a),
    decreases a.len(),
{
    if a.len() > 0 {
        lemma_text_le_refl(a.drop_first());
    }
}

proof fn lemma_text_le_total(a: Seq<char>, b: Seq<char>)
    ensures
        text_le(a, b) || text_le(b, a),
    decreases a.len(),
{
    if a.len() > 0 && b.len() > 0 {
        if a[0] == b[0] {
            lemma_text_le_total(a.drop_first(), b.drop_first());
        } else {
            vstd::utf8::char_u32_cast(a[0], a[0] as u32);
            vstd::utf8::char_u32_cast(b[0], b[0] as u32);
        }
    }
}

proof fn lemma_text_le_trans(a: Seq<char>, b: Seq<char>, c: Seq<char>)
    requires
        text_le(a, b),
        text_le(b, c),
    ensures
        text_le(a, c),
    decreases a.len(),
{
    if a.len() > 0 && b.len() > 0 && c.len() > 0 {
        if a[0] == b[0] && b[0] == c[0] {
            lemma_text_le_trans(a.drop_first(), b.drop_first(), c.drop_first());
        }
    }
}

proof fn lemma_insert_contains_repo(s: Seq<GithubRepo>, k: int, e: GithubRepo)
    requires
        0 <= k <= s.len(),
    ensures
        forall|x: GithubRepo| s.insert(k, e).contains(x) <==> (s.contains(x) || x == e),
{
    let u = s.insert(k, e);
    assert forall|x: GithubRepo| u.contains(x) implies (s.contains(x) || x == e) by {
        let p = choose|p: int| 0 <= p < u.len() && u[p] == x;
        if p < k {
            assert(s[p] == x);
        } else if p > k {
            assert(s[p - 1] == x);
        }
    }
    assert forall|x: GithubRepo| (s.contains(x) || x == e) implies u.contains(x) by {
        if x == e {
            assert(u[k] == e);
        } else {
            let p = choose|p: int| 0 <= p < s.len() && s[p] == x;
            if p < k {
                assert(u[p] == x);
            } else {
                assert(u[p + 1] == x);
            }
        }
    }
}

proof fn lemma_last_split(t: Seq<GithubRepo>)
    requires
        t.len() > 0,
    ensures
        forall|x: GithubRepo| t.contains(x) <==> (t.drop_last().contains(x) || x == t.last()),
{
    let d = t.drop_last();
    assert forall|x: GithubRepo| t.contains(x) <==> (d.contains(x) || x == t.last()) by {
        if t.contains(x) {
            let p = choose|p: int| 0 <= p < t.len() && t[p] == x;
            if p < t.len() - 1 {
                assert(d[p] == x);
            }
        }
        if d.contains(x) {
            let p = choose|p: int| 0 <= p < d.len() && d[p] == x;
            assert(t[p] == x);
        }
        if x == t.last() {
            assert(t[t.len() - 1] == x);
        }
    }
}

proof fn lemma_stars_slot_split(s: Seq<GithubRepo>, n: u64)
    requires
        stars_ordered(s),
    ensures
        0 <= stars_slot(s, n) <= s.len(),
        forall|i: int| 0 <= i < stars_slot(s, n) ==> s[i].stargazers_count >= n,
        forall|i: int| stars_slot(s, n) <= i < s.len() ==> s[i].stargazers_count < n,
    decreases s.len(),
{
    lemma_slot_bounds(s, n, Seq::empty());
    if s.len() > 0 {
        if s.last().stargazers_count >= n {
            assert forall|i: int| 0 <= i < s.len() implies s[i].stargazers_count >= n by {
                if i < s.len() - 1 {
                    assert(s[i].stargazers_count >= s[s.len() - 1].stargazers_count);
                }
            }
        } else {
            let d = s.drop_last();
            assert(stars_ordered(d)) by {
                assert forall|i: int, j: int| 0 <= i < j < d.len() implies d[i].stargazers_count >= d[j].stargazers_count by {
                    assert(d[i] == s[i] && d[j] == s[j]);
                }
            }
            lemma_stars_slot_split(d, n);
            assert forall|i: int| 0 <= i < stars_slot(s, n) implies s[i].stargazers_count >= n by {
                assert(s[i] == d[i]);
            }
            assert forall|i: int| stars_slot(s, n) <= i < s.len() implies s[i].stargazers_count < n by {
                if i < s.len() - 1 {
                    assert(s[i] == d[i]);
                }
            }
        }
    }
}

proof fn lemma_name_slot_split(s: Seq<GithubRepo>, n: Seq<char>)
    requires
        names_ordered(s),
    ensures
        0 <= name_slot(s, n) <= s.len(),
        forall|i: int| 0 <= i < name_slot(s, n) ==> text_le(s[i].name@, n),
        forall|i: int| name_slot(s, n) <= i < s.len() ==> !text_le(s[i].name@, n),
    decreases s.len(),
{
    lemma_slot_bounds(s, 0, n);
    if s.len() > 0 {
        if text_le(s.last().name@, n) {
            assert forall|i: int| 0 <= i < s.len() implies text_le(s[i].name@, n) by {
                if i < s.len() - 1 {
                    assert(text_le(s[i].name@, s[s.len() - 1].name@));
                    lemma_text_le_trans(s[i].name@, s[s.len() - 1].name@, n);
                }
            }
        } else {
            let d = s.drop_last();
            assert(names_ordered(d)) by {
                assert forall|i: int, j: int| 0 <= i < j < d.len() implies text_le(d[i].name@, d[j].name@) by {
                    assert(d[i] == s[i] && d[j] == s[j]);
                }
            }
            lemma_name_slot_split(d, n);
            assert forall|i: int| 0 <= i < name_slot(s, n) implies text_le(s[i].name@, n) by {
                assert(s[i] == d[i]);
            }
            assert forall|i: int| name_slot(s, n) <= i < s.len() implies !text_le(s[i].name@, n) by {
                if i < s.len() - 1 {
                    assert(s[i] == d[i]);
                }
            }
        }
    }
}

/// Ordering by stars keeps exactly the same repositories and puts those with
/// more stars first.
pub proof fn lemma_by_stars(s: Seq<GithubRepo>)
    ensures
        stars_ordered(by_stars(s)),
        same_repos(by_stars(s), s),
    decreases s.len(),
{
    lemma_sorted_len(s);
    if s.len() > 0 {
        let e = s.last();
        lemma_by_stars(s.drop_last());
        let o = by_stars(s.drop_last());
        lemma_stars_slot_split(o, e.stargazers_count);
        let k = stars_slot(o, e.stargazers_count);
        let u = o.insert(k, e);
        assert forall|i: int, j: int| 0 <= i < j < u.len() implies u[i].stargazers_count >= u[j].stargazers_count by {
            if j < k {
            } else if j == k {
            } else if i < k {
                assert(u[j] == o[j - 1]);
            } else if i == k {
                assert(u[j] == o[j - 1]);
            } else {
                assert(u[i] == o[i - 1]);
                assert(u[j] == o[j - 1]);
            }
        }
        lemma_insert_contains_repo(o, k, e);
        lemma_last_split(s);
    }
}

/// Ordering by name keeps exactly the same repositories and puts them in
/// name order.
pub proof fn lemma_by_name(s: Seq<GithubRepo>)
    ensures
        names_ordered(by_name(s)),
        same_repos(by_name(s), s),
    decreases s.len(),
{
    lemma_sorted_len(s);
    if s.len() > 0 {
        let e = s.last();
        lemma_by_name(s.drop_last());
        let o = by_name(s.drop_last());
        lemma_name_slot_split(o, e.name@);
        let k = name_slot(o, e.name@);
        let u = o.insert(k, e);
        assert forall|i: int, j: int| 0 <= i < j < u.len() implies text_le(u[i].name@, u[j].name@) by {
            if j < k {
            } else if j == k {
            } else if i < k {
                assert(u[j] == o[j - 1]);
                lemma_text_le_total(o[j - 1].name@, e.name@);
                lemma_text_le_trans(u[i].name@, e.name@, u[j].name@);
            } else if i == k {
                assert(u[j] == o[j - 1]);
                lemma_text_le_total(o[j - 1].name@, e.name@);
            } else {
                assert(u[i] == o[i - 1]);
                assert(u[j] == o[j - 1]);
            }
        }
        lemma_insert_contains_repo(o, k, e);
        lemma_last_split(s);
    }
}

} // verus!
