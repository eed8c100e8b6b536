//! Remote URLs: browser links for commits, authenticated clone URLs and the
//! folder a clone is stored in.
use vstd::prelude::*;
use crate::text::{
    chars_of, ends_with, first_index_of, matches_at, push_all, push_range,
    starts_with, string_of_range, trim_end_char, trim_end_char_len, trim_end_pat,
    trim_end_pat_len,
};

verus! {

// ── Specifications ──────────────────────────────────────────────────────────

/// `"git@"`
pub open spec fn git_at() -> Seq<char> {
    seq!['g', 'i', 't', '@']
}

/// `"https://"`
pub open spec fn https_scheme() -> Seq<char> {
    seq!['h', 't', 't', 'p', 's', ':', '/', '/']
}

/// `"http://"`
pub open spec fn http_scheme() -> Seq<char> {
    seq!['h', 't', 't', 'p', ':', '/', '/']
}

/// `"ssh://"`
pub open spec fn ssh_scheme() -> Seq<char> {
    seq!['s', 's', 'h', ':', '/', '/']
}

/// `".git"`
pub open spec fn dot_git() -> Seq<char> {
    seq!['.', 'g', 'i', 't']
}

/// `"/commit/"`
pub open spec fn commit_segment() -> Seq<char> {
    seq!['/', 'c', 'o', 'm', 'm', 'i', 't', '/']
}

/// A remote with trailing `'/'`s and then trailing `".git"`s removed.
pub open spec fn trimmed_remote(r: Seq<char>) -> Seq<char> {
    trim_end_pat(trim_end_char(r, '/'), dot_git())
}

/// `host/path` without a leading `user@` (an `'@'` before any `'/'`).
pub open spec fn without_user(w: Seq<char>) -> Seq<char> {
    match first_index_of(w, '@') {
        Some(i) => if first_index_of(w.take(i), '/') is None {
            w.skip(i + 1)
        } else {
            w
        },
        None => w,
    }
}

/// The browser URL of a remote, always `https://`: `git@host:path` and
/// `ssh://[user@]host/path` become `https://host/path`, an `http://` URL
/// becomes its `https://` form, an `https://` URL is kept; anything else has
/// none.
pub open spec fn web_url_of(r: Seq<char>) -> Option<Seq<char>> {
    let t = trimmed_remote(r);
    if starts_with(t, git_at()) {
        let w = t.skip(4);
        match first_index_of(w, ':') {
            Some(i) => Some(https_scheme() + w.take(i) + seq!['/'] + w.skip(i + 1)),
            None => None,
        }
    } else if starts_with(t, https_scheme()) {
        Some(t)
    } else if starts_with(t, http_scheme()) {
        Some(https_scheme() + t.skip(7))
    } else if starts_with(t, ssh_scheme()) {
        Some(https_scheme() + without_user(t.skip(6)))
    } else {
        None
    }
}

/// The page of commit `hash` under the web URL of remote `r`.
pub open spec fn commit_url_of(r: Seq<char>, hash: Seq<char>) -> Option<Seq<char>> {
    match web_url_of(r) {
        Some(base) => Some(base + commit_segment() + hash),
        None => None,
    }
}

/// `url` with `token@` placed right after a leading `https://`.
pub open spec fn url_with_token(url: Seq<char>, token: Seq<char>) -> Seq<char> {
    if starts_with(url, https_scheme()) {
        https_scheme() + token + seq!['@'] + url.skip(8)
    } else {
        url
    }
}

/// What follows the last `c` in `s` (all of `s` when there is none).
pub open spec fn after_last(s: Seq<char>, c: char) -> Seq<char>
    decreases s.len(),
{
    if s.len() == 0 {
        s
    } else if s.last() == c {
        Seq::empty()
    } else {
        after_last(s.drop_last(), c).push(s.last())
    }
}

/// Name of the folder a clone of `url` is stored in: the last path segment,
/// without trailing `".git"`s.
pub open spec fn clone_folder_of(url: Seq<char>) -> Seq<char> {
    trim_end_pat(after_last(trim_end_char(url, '/'), '/'), dot_git())
}

// ── Laws ────────────────────────────────────────────────────────────────────

/// Every web URL that a remote yields is an `https://` URL.
pub proof fn lemma_web_url_scheme(r: Seq<char>)
    ensures
        web_url_of(r) matches Some(u) ==> starts_with(u, https_scheme()),
{
    let t = trimmed_remote(r);
    if starts_with(t, git_at()) {
        let w = t.skip(4);
        if let Some(i) = first_index_of(w, ':') {
            let u = https_scheme() + w.take(i) + seq!['/'] + w.skip(i + 1);
            assert(u.subrange(0, 8) =~= https_scheme());
        }
    } else if starts_with(t, https_scheme()) {
    } else if starts_with(t, http_scheme()) {
        let u = https_scheme() + t.skip(7);
        assert(u.subrange(0, 8) =~= https_scheme());
    } else if starts_with(t, ssh_scheme()) {
        let u = https_scheme() + without_user(t.skip(6));
        assert(u.subrange(0, 8) =~= https_scheme());
    }
}

/// A commit link is exactly the remote's web URL followed by `/commit/` and
/// the hash, whatever the host, and it exists exactly when the web URL does.
pub proof fn lemma_commit_url_extends_web_url(r: Seq<char>, hash: Seq<char>)
    ensures
        commit_url_of(r, hash) is Some <==> web_url_of(r) is Some,
        commit_url_of(r, hash) matches Some(u) ==> starts_with(u, web_url_of(r)->0) && ends_with(
            u,
            hash,
        ),
        commit_url_of(r, hash) matches Some(u) ==> u == web_url_of(r)->0 + seq![
            '/',
            'c',
            'o',
            'm',
            'm',
            'i',
            't',
            '/',
        ] + hash,
{
    if let Some(base) = web_url_of(r) {
        let u = base + commit_segment() + hash;
        assert(u.subrange(0, base.len() as int) =~= base);
        assert(u.subrange(u.len() - hash.len(), u.len() as int) =~= hash);
    }
}

// ── Executable functions ────────────────────────────────────────────────────

/// Converts a remote URL (`git@host:path`, `ssh://[user@]host/path`,
/// `https://…`, `http://…`) to a browser-friendly HTTPS URL.
pub fn to_https(remote: &str) -> (r: Option<String>)
    ensures
        match r {
            Some(s) => web_url_of(remote@) == Some(s@),
            None => web_url_of(remote@) is None,
        },
{
    let v = chars_of(remote);
    let ghost s = remote@;
    let n1 = trim_end_char_len(v.as_slice(), v.len(), '/');
    let dot_git_v = vec!['.', 'g', 'i', 't'];
    assert(dot_git_v@ == dot_git());
    let n = trim_end_pat_len(v.as_slice(), n1, dot_git_v.as_slice());
    assert(v@.take(v@.len() as int) == s);
    assert(v@.take(n1 as int).take(n as int) == v@.take(n as int));
    proof {
        lemma_take_of_take(v@, n1 as int, n as int);
    }
    let ghost t = v@.take(n as int);
    assert(t == trimmed_remote(s));

    let git_at_v = vec!['g', 'i', 't', '@'];
    let https_v = vec!['h', 't', 't', 'p', 's', ':', '/', '/'];
    let http_v = vec!['h', 't', 't', 'p', ':', '/', '/'];
    assert(git_at_v@ == git_at());
    assert(https_v@ == https_scheme());
    assert(http_v@ == http_scheme());
    let head = v.as_slice();
    if prefix_within(head, n, git_at_v.as_slice()) {
        assert(starts_with(t, git_at()));
        let w_start: usize = 4;
        let ghost w = t.skip(4);
        match find_char_in(head, w_start, n, ':') {
            Some(i) => {
                assert(first_index_of(w, ':') == Some(i as int));
                let mut out = String::new();
                push_all(&mut out, https_v.as_slice());
                push_range(&mut out, head, 4, 4 + i);
                let slash = vec!['/'];
                push_all(&mut out, slash.as_slice());
                push_range(&mut out, head, 4 + i + 1, n);
                assert(v@.subrange(4, 4 + i) == w.take(i as int));
                assert(v@.subrange(4 + i + 1, n as int) == w.skip(i + 1));
                assert(out@ == Seq::<char>::empty() + https_scheme() + w.take(i as int) + seq!['/']
                    + w.skip(i + 1));
                assert(out@ == https_scheme() + w.take(i as int) + seq!['/'] + w.skip(i + 1));
                Some(out)
            },
            None => None,
        }
    } else if prefix_within(head, n, https_v.as_slice()) {
        Some(string_of_range(head, 0, n))
    } else if prefix_within(head, n, http_v.as_slice()) {
        let mut out = String::new();
        push_all(&mut out, https_v.as_slice());
        push_range(&mut out, head, 7, n);
        assert(v@.subrange(7, n as int) =~= t.skip(7));
        assert(out@ =~= https_scheme() + t.skip(7));
        Some(out)
    } else {
        let ssh_v = vec!['s', 's', 'h', ':', '/', '/'];
        assert(ssh_v@ == ssh_scheme());
        if prefix_within(head, n, ssh_v.as_slice()) {
            let ghost w = t.skip(6);
            let mut start: usize = 6;
            match find_char_in(head, 6, n, '@') {
                Some(i) => {
                    assert(v@.take(n as int).skip(6) =~= w);
                    assert(first_index_of(w, '@') == Some(i as int));
                    match find_char_in(head, 6, 6 + i, '/') {
                        Some(_) => {
                            assert(v@.take(6 + i).skip(6) =~= w.take(i as int));
                        },
                        None => {
                            assert(v@.take(6 + i).skip(6) =~= w.take(i as int));
                            start = 6 + i + 1;
                        },
                    }
                },
                None => {
                    assert(v@.take(n as int).skip(6) =~= w);
                },
            }
            assert(v@.subrange(start as int, n as int) =~= without_user(w));
            let mut out = String::new();
            push_all(&mut out, https_v.as_slice());
            push_range(&mut out, head, start, n);
            assert(out@ =~= https_scheme() + without_user(w));
            Some(out)
        } else {
            None
        }
    }
}

/// Builds the web page of a commit on GitHub, GitLab or Bitbucket from the
/// repository's remote URL.
pub fn commit_web_url(remote_url: &str, hash: &str) -> (r: Option<String>)
    ensures
        match r {
            Some(s) => commit_url_of(remote_url@, hash@) == Some(s@),
            None => commit_url_of(remote_url@, hash@) is None,
        },
{
    match to_https(remote_url) {
        Some(base) => {
            let mut out = base;
            let seg = vec!['/', 'c', 'o', 'm', 'm', 'i', 't', '/'];
            push_all(&mut out, seg.as_slice());
            let h = chars_of(hash);
            push_all(&mut out, h.as_slice());
            Some(out)
        },
        None => None,
    }
}

/// Places an access token in an `https://` clone URL (`https://TOKEN@host/…`);
/// other URLs are returned unchanged.
pub fn inject_token_into_url(url: &str, token: &str) -> (r: String)
    ensures
        r@ == url_with_token(url@, token@),
{
    let v = chars_of(url);
    let https_v = vec!['h', 't', 't', 'p', 's', ':', '/', '/'];
    assert(https_v@ == https_scheme());
    if matches_at(v.as_slice(), 0, https_v.as_slice()) {
        let mut out = String::new();
        push_all(&mut out, https_v.as_slice());
        let t = chars_of(token);
        push_all(&mut out, t.as_slice());
        let at = vec!['@'];
        push_all(&mut out, at.as_slice());
        push_range(&mut out, v.as_slice(), 8, v.len());
        assert(v@.subrange(8, v@.len() as int) == url@.skip(8));
        assert(out@ == Seq::<char>::empty() + https_scheme() + token@ + seq!['@'] + url@.skip(8));
        out
    } else {
        assert(v@.subrange(0, 8) == url@.subrange(0, 8));
        string_of_range(v.as_slice(), 0, v.len())
    }
}

/// The folder name a clone of `url` is stored under: the last path segment
/// of the URL, without trailing `'/'`s and `".git"`s.
pub fn clone_folder_name(url: &str) -> (r: String)
    ensures
        r@ == clone_folder_of(url@),
{
    let v = chars_of(url);
    let n1 = trim_end_char_len(v.as_slice(), v.len(), '/');
    assert(v@.take(v@.len() as int) == url@);
    let mut start = n1;
    while start > 0 && v[start - 1] != '/'
        invariant
            start <= n1 <= v@.len(),
            after_last(v@.take(n1 as int), '/') == after_last(v@.take(start as int), '/')
                + v@.subrange(start as int, n1 as int),
        decreases start,
    {
        assert(v@.take(start as int).drop_last() == v@.take(start - 1));
        assert(v@.subrange(start - 1, n1 as int) == seq![v@[start - 1]] + v@.subrange(
            start as int,
            n1 as int,
        ));
        assert(after_last(v@.take(start - 1), '/') + v@.subrange(start - 1, n1 as int) =~= after_last(
            v@.take(start - 1),
            '/',
        ).push(v@[start - 1]) + v@.subrange(start as int, n1 as int));
        start -= 1;
    }
    assert(after_last(v@.take(start as int), '/') == Seq::<char>::empty());
    assert(after_last(v@.take(n1 as int), '/') =~= v@.subrange(start as int, n1 as int));
    let seg = string_of_range(v.as_slice(), start, n1);
    let sv = chars_of(seg.as_str());
    let dot_git_v = vec!['.', 'g', 'i', 't'];
    assert(dot_git_v@ == dot_git());
    let n = trim_end_pat_len(sv.as_slice(), sv.len(), dot_git_v.as_slice());
    assert(sv@.take(sv@.len() as int) == sv@);
    string_of_range(sv.as_slice(), 0, n)
}

// ── Helpers ─────────────────────────────────────────────────────────────────

proof fn lemma_take_of_take(s: Seq<char>, a: int, b: int)
    requires
        0 <= b <= a <= s.len(),
    ensures
        s.take(a).take(b) == s.take(b),
{
    assert(s.take(a).take(b) =~= s.take(b));
}

/// `p` is a prefix of `v[..n]`.
fn prefix_within(v: &[char], n: usize, p: &[char]) -> (b: bool)
    requires
        n <= v@.len(),
    ensures
        b == starts_with(v@.take(n as int), p@),
{
    if p.len() > n {
        return false;
    }
    let m = matches_at(v, 0, p);
    assert(v@.take(n as int).subrange(0, p@.len() as int) == v@.subrange(0, p@.len() as int));
    m
}

/// Index of the first `c` in `v[from..n]`, relative to `from`.
fn find_char_in(v: &[char], from: usize, n: usize, c: char) -> (r: Option<usize>)
    requires
        from <= n <= v@.len(),
    ensures
        match r {
            Some(i) => first_index_of(v@.take(n as int).skip(from as int), c) == Some(i as int)
                && from + i < n,
            None => first_index_of(v@.take(n as int).skip(from as int), c) is None,
        },
{
    let mut i = from;
    while i < n
        invariant
            from <= i <= n <= v@.len(),
            forall|j: int| from <= j < i ==> v@[j] != c,
        decreases n - i,
    {
        if v[i] == c {
            proof {
                crate::text::lemma_first_index_of_is(v@.take(n as int).skip(from as int), c, i - from);
            }
            return Some(i - from);
        }
        i += 1;
    }
    proof {
        crate::text::lemma_first_index_of_none(v@.take(n as int).skip(from as int), c);
    }
    None
}

} // verus!
