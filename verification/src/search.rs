//! GitHub repository search: result records and the request to send.
use vstd::prelude::*;
use vstd::string::StringSliceAdditionalSpecFns;
use crate::text::{chars_of, push_all, push_char};

verus! {

/// License of a repository in search results.
#[derive(Debug, Clone, PartialEq)]
pub struct License {
    pub spdx_id: Option<String>,
}

/// One repository found by a search.
#[derive(Debug, Clone, PartialEq)]
pub struct SearchResult {
    pub full_name: String,
    pub description: Option<String>,
    pub stargazers_count: u64,
    pub forks_count: u64,
    pub language: Option<String>,
    pub clone_url: String,
    pub html_url: String,
    pub default_branch: String,
    pub open_issues_count: u64,
    pub license: Option<License>,
    pub topics: Option<Vec<String>>,
    pub pushed_at: Option<String>,
}

/// Why a search request was answered with a failure status.
#[derive(Debug, Clone, Copy, PartialEq, Eq)]
pub enum SearchFailure {
    /// GitHub refused for now (HTTP 403 or 429): wait and retry.
    RateLimited,
    /// Any other failure status.
    ApiError,
}

// ── Percent encoding ────────────────────────────────────────────────────────

/// Bytes left as they are by percent encoding: ASCII letters and digits and
/// `-`, `.`, `_`, `~`.
pub open spec fn is_unreserved(b: u8) -> bool {
    ||| (48 <= b && b <= 57)
    ||| (65 <= b && b <= 90)
    ||| (97 <= b && b <= 122)
    ||| b == 45
    ||| b == 46
    ||| b == 95
    ||| b == 126
}

/// Upper-case hexadecimal digit of `d < 16`.
pub open spec fn hex_digit(d: u8) -> char {
    if d < 10 {
        (48 + d) as char
    } else {
        (55 + d) as char
    }
}

/// Percent encoding of `bytes`: unreserved bytes as themselves, every other
/// byte as `%` and two upper-case hexadecimal digits.
pub open spec fn percent_encode(bytes: Seq<u8>) -> Seq<char>
    decreases bytes.len(),
{
    if bytes.len() == 0 {
        Seq::empty()
    } else {
        let b = bytes.last();
        let enc = if is_unreserved(b) {
            seq![b as char]
        } else {
            seq!['%', hex_digit(b / 16), hex_digit(b % 16)]
        };
        percent_encode(bytes.drop_last()) + enc
    }
}

/// `urlencoding::encode`: percent-encodes every byte of the UTF-8 form of
/// `s` except ASCII alphanumerics and `-`, `_`, `.`, `~`, with upper-case
/// hexadecimal digits.
#[verifier::external_body]
fn url_encode(s: &str) -> (r: String)
    ensures
        r@ == percent_encode(s.spec_bytes()),
{
    urlencoding::encode(s).into_owned()
}

// ── Requests ────────────────────────────────────────────────────────────────

/// Decimal digits of `n`.
pub open spec fn decimal(n: nat) -> Seq<char>
    decreases n,
{
    if n < 10 {
        seq![(48 + n) as char]
    } else {
        decimal(n / 10) + seq![(48 + n % 10) as char]
    }
}

/// Appends the decimal digits of `n` to `out`.
pub fn push_decimal(out: &mut String, n: u64)
    ensures
        final(out)@ == old(out)@ + decimal(n as nat),
    decreases n,
{
    if n >= 10 {
        push_decimal(out, n / 10);
    }
    let digit: u8 = (48 + n % 10) as u8;
    push_char(out, digit as char);
    proof {
        if n < 10 {
            assert(n % 10 == n);
        }
        assert(decimal(n as nat) =~= if n >= 10 {
            decimal((n / 10) as nat) + seq![(48 + n % 10) as char]
        } else {
            seq![(48 + n % 10) as char]
        });
    }
}

/// `"https://api.github.com/search/repositories?q="`
pub open spec fn search_endpoint() -> Seq<char> {
    "https://api.github.com/search/repositories?q="@
}

/// `"&sort=stars&order=desc&per_page="`
pub open spec fn search_options() -> Seq<char> {
    "&sort=stars&order=desc&per_page="@
}

/// The number of results asked for: `limit`, at most 30.
pub open spec fn page_size(limit: u8) -> nat {
    if limit < 30 {
        limit as nat
    } else {
        30
    }
}

/// The request for the `limit` most-starred repositories matching `query`;
/// an empty query sends no request.
pub open spec fn search_url_of(query: Seq<char>, query_bytes: Seq<u8>, limit: u8) -> Option<Seq<char>> {
    if query.len() == 0 {
        None
    } else {
        Some(search_endpoint() + percent_encode(query_bytes) + search_options() + decimal(
            page_size(limit),
        ))
    }
}

/// URL of the search for the `limit` (at most 30) most-starred repositories
/// matching `query`; `None` for an empty query, which needs no request and
/// finds nothing.
pub fn search_url(query: &str, limit: u8) -> (r: Option<String>)
    ensures
        match r {
            Some(u) => search_url_of(query@, query.spec_bytes(), limit) == Some(u@),
            None => search_url_of(query@, query.spec_bytes(), limit) is None,
        },
{
    if query.is_empty() {
        return None;
    }
    let mut out = String::new();
    let endpoint = chars_of("https://api.github.com/search/repositories?q=");
    push_all(&mut out, endpoint.as_slice());
    let q = url_encode(query);
    let qv = chars_of(q.as_str());
    push_all(&mut out, qv.as_slice());
    let options = chars_of("&sort=stars&order=desc&per_page=");
    push_all(&mut out, options.as_slice());
    let n: u8 = if limit < 30 { limit } else { 30 };
    assert(n as nat == page_size(limit));
    if n >= 10 {
        push_char(&mut out, ((48 + n / 10) as u8) as char);
        push_char(&mut out, ((48 + n % 10) as u8) as char);
        proof {
            assert(decimal((n / 10) as nat) == seq![(48 + n / 10) as char]);
            assert(decimal(n as nat) == decimal((n / 10) as nat) + seq![(48 + n % 10) as char]);
            assert(out@ =~= Seq::<char>::empty() + search_endpoint() + percent_encode(query.spec_bytes())
                + search_options() + decimal(n as nat));
        }
    } else {
        push_char(&mut out, ((48 + n) as u8) as char);
        proof {
            assert(out@ =~= Seq::<char>::empty() + search_endpoint() + percent_encode(query.spec_bytes())
                + search_options() + decimal(n as nat));
        }
    }
    Some(out)
}

/// The decimal form of a number is a non-empty run of digits that reads
/// back as that number.
pub proof fn lemma_decimal_reads_back(n: nat)
    ensures
        decimal(n).len() > 0,
        crate::updater::all_digits(decimal(n)),
        crate::updater::digits_value(decimal(n)) == n,
    decreases n,
{
    if n >= 10 {
        lemma_decimal_reads_back(n / 10);
        let d = decimal(n / 10);
        let s = d + seq![(48 + n % 10) as char];
        assert(s.drop_last() =~= d);
        assert(s.last() == (48 + n % 10) as char);
        assert(((48 + n % 10) as char) as int == 48 + n % 10);
        assert(n == (n / 10) * 10 + n % 10);
        assert(crate::updater::digits_value(s) == crate::updater::digits_value(d) * 10 + ((s.last() as int) - ('0' as int)) as nat);
        assert forall|i: int| 0 <= i < s.len() implies crate::updater::is_digit(#[trigger] s[i]) by {
            if i < d.len() {
                assert(s[i] == d[i]);
            }
        }
    } else {
        let s = seq![(48 + n) as char];
        assert(s.drop_last() =~= Seq::<char>::empty());
        assert(s.last() == (48 + n) as char);
        assert(((48 + n) as char) as int == 48 + n);
        assert(crate::updater::digits_value(Seq::<char>::empty()) == 0);
        assert(crate::updater::digits_value(s) == crate::updater::digits_value(s.drop_last()) * 10 + ((s.last() as int) - ('0' as int)) as nat);
        assert(crate::updater::is_digit(s[0]));
    }
}

/// Percent encoding works byte by byte: an unreserved byte stays as its
/// character, any other becomes `'%'` and its two upper-case hexadecimal
/// digits, and the encoding of two byte strings together is the two
/// encodings one after the other.
pub proof fn lemma_percent_encode_bytes(a: Seq<u8>, b: Seq<u8>, x: u8)
    ensures
        is_unreserved(x) ==> percent_encode(seq![x]) == seq![x as char],
        !is_unreserved(x) ==> percent_encode(seq![x]) == seq!['%', hex_digit(x / 16), hex_digit(x % 16)],
        percent_encode(a + b) == percent_encode(a) + percent_encode(b),
    decreases b.len(),
{
    assert(seq![x].drop_last() =~= Seq::<u8>::empty());
    assert(seq![x].last() == x);
    assert(percent_encode(Seq::<u8>::empty()) == Seq::<char>::empty());
    if is_unreserved(x) {
        assert(Seq::<char>::empty() + seq![x as char] =~= seq![x as char]);
    } else {
        assert(Seq::<char>::empty() + seq!['%', hex_digit(x / 16), hex_digit(x % 16)] =~= seq![
            '%',
            hex_digit(x / 16),
            hex_digit(x % 16),
        ]);
    }
    if b.len() == 0 {
        assert(a + b =~= a);
        assert(percent_encode(a) + Seq::<char>::empty() =~= percent_encode(a));
    } else {
        lemma_percent_encode_bytes(a, b.drop_last(), x);
        assert((a + b).drop_last() =~= a + b.drop_last());
        assert((a + b).last() == b.last());
    }
}

/// A search asks for the number of results it was given, but never more
/// than 30; an empty query sends no request, any other sends one.
pub proof fn lemma_search_request(query: Seq<char>, query_bytes: Seq<u8>, limit: u8)
    ensures
        page_size(limit) <= 30,
        limit <= 30 ==> page_size(limit) == limit,
        limit > 30 ==> page_size(limit) == 30,
        search_url_of(query, query_bytes, limit) is None <==> query.len() == 0,
{
}

/// How a failure status of the search API is reported: 403 and 429 mean
/// rate limiting, anything else is an API error.
pub fn classify_failure(status: u16) -> (f: SearchFailure)
    ensures
        f == (if status == 403 || status == 429 {
            SearchFailure::RateLimited
        } else {
            SearchFailure::ApiError
        }),
{
    if status == 403 || status == 429 {
        SearchFailure::RateLimited
    } else {
        SearchFailure::ApiError
    }
}

} // verus!
