//! Character-level text operations shared by the rest of the library.
//!
//! Every operation here is specified over `Seq<char>`, the view of `str` and
//! `String`, and mirrors the behaviour of the corresponding `str` method.
use vstd::prelude::*;

verus! {

// ── Specifications ──────────────────────────────────────────────────────────

/// `p` is a prefix of `s`.
pub open spec fn starts_with(s: Seq<char>, p: Seq<char>) -> bool {
    p.len() <= s.len() && s.subrange(0, p.len() as int) == p
}

/// `p` is a suffix of `s`.
pub open spec fn ends_with(s: Seq<char>, p: Seq<char>) -> bool {
    p.len() <= s.len() && s.subrange(s.len() - p.len(), s.len() as int) == p
}

/// `s` with every trailing `c` removed (`str::trim_end_matches` with a char).
pub open spec fn trim_end_char(s: Seq<char>, c: char) -> Seq<char>
    decreases s.len(),
{
    if s.len() > 0 && s.last() == c {
        trim_end_char(s.drop_last(), c)
    } else {
        s
    }
}

/// `s` with every leading `c` removed (`str::trim_start_matches` with a char).
pub open spec fn trim_start_char(s: Seq<char>, c: char) -> Seq<char>
    decreases s.len(),
{
    if s.len() > 0 && s[0] == c {
        trim_start_char(s.drop_first(), c)
    } else {
        s
    }
}

/// `s` with every trailing repetition of the non-empty pattern `p` removed
/// (`str::trim_end_matches` with a string pattern).
pub open spec fn trim_end_pat(s: Seq<char>, p: Seq<char>) -> Seq<char>
    decreases s.len(),
{
    if p.len() > 0 && ends_with(s, p) {
        trim_end_pat(s.subrange(0, s.len() - p.len()), p)
    } else {
        s
    }
}

/// `s` with every leading repetition of the non-empty pattern `p` removed
/// (`str::trim_start_matches` with a string pattern).
pub open spec fn trim_start_pat(s: Seq<char>, p: Seq<char>) -> Seq<char>
    decreases s.len(),
{
    if p.len() > 0 && starts_with(s, p) {
        trim_start_pat(s.subrange(p.len() as int, s.len() as int), p)
    } else {
        s
    }
}

/// Index of the first `c` in `s`, if any.
pub open spec fn first_index_of(s: Seq<char>, c: char) -> Option<int>
    decreases s.len(),
{
    if s.len() == 0 {
        None
    } else if s[0] == c {
        Some(0)
    } else {
        match first_index_of(s.drop_first(), c) {
            Some(i) => Some(i + 1),
            None => None,
        }
    }
}

/// `needle` occurs in `hay` as a contiguous block (`str::contains`).
pub open spec fn contains_seq(hay: Seq<char>, needle: Seq<char>) -> bool {
    exists|i: int| 0 <= i && i + needle.len() <= hay.len() && #[trigger] hay.subrange(i, i + needle.len()) == needle
}

/// Unicode `White_Space` (`char::is_whitespace`).
pub open spec fn is_whitespace(c: char) -> bool {
    ||| ('\t' <= c && c <= '\r')
    ||| c == ' '
    ||| c == '\u{85}'
    ||| c == '\u{A0}'
    ||| c == '\u{1680}'
    ||| ('\u{2000}' <= c && c <= '\u{200A}')
    ||| c == '\u{2028}'
    ||| c == '\u{2029}'
    ||| c == '\u{202F}'
    ||| c == '\u{205F}'
    ||| c == '\u{3000}'
}

/// Every character of `s` is whitespace, i.e. `s.trim()` is empty.
pub open spec fn is_blank(s: Seq<char>) -> bool {
    forall|i: int| 0 <= i < s.len() ==> is_whitespace(#[trigger] s[i])
}

/// A line ended by `'\n'` as `str::lines` yields it: a single `'\r'` before
/// the `'\n'` is dropped.
pub open spec fn strip_cr(s: Seq<char>) -> Seq<char> {
    if s.len() > 0 && s.last() == '\r' {
        s.drop_last()
    } else {
        s
    }
}

/// The lines of `s` (`str::lines`): split at `'\n'`, each line without its
/// `"\n"` or `"\r\n"` ending, and no final empty line after a last `'\n'`;
/// a last line without `'\n'` is kept whole, even when it ends in `'\r'`.
pub open spec fn lines(s: Seq<char>) -> Seq<Seq<char>>
    decreases s.len(),
{
    if s.len() == 0 {
        Seq::empty()
    } else {
        match first_index_of(s, '\n') {
            None => seq![s],
            Some(i) => {
                proof {
                    lemma_first_index_of(s, '\n');
                }
                seq![strip_cr(s.take(i))] + lines(s.skip(i + 1))
            },
        }
    }
}

/// The first line of `s`, or the empty string (`s.lines().next().unwrap_or("")`).
pub open spec fn first_line(s: Seq<char>) -> Seq<char> {
    if lines(s).len() > 0 {
        lines(s)[0]
    } else {
        Seq::empty()
    }
}

/// The lower-case form of `s` (`str::to_lowercase`, full Unicode case mapping).
pub uninterp spec fn lowercase(s: Seq<char>) -> Seq<char>;

/// `needle`, already lower-cased, occurs in the lower-case form of `field`:
/// a case-insensitive `contains`.
pub open spec fn matches_lowered(field: Seq<char>, needle_lower: Seq<char>) -> bool {
    contains_seq(lowercase(field), needle_lower)
}

/// Bytes of `c` in UTF-8.
pub open spec fn utf8_width(c: char) -> nat {
    if (c as u32) < 0x80 {
        1
    } else if (c as u32) < 0x800 {
        2
    } else if (c as u32) < 0x10000 {
        3
    } else {
        4
    }
}

/// The leading characters of `s` whose UTF-8 form is exactly `n` bytes
/// long, if `s` has `n` bytes and byte `n` starts a character
/// (`str::get(..n)`).
pub open spec fn byte_prefix(s: Seq<char>, n: nat) -> Option<Seq<char>>
    decreases s.len(),
{
    if n == 0 {
        Some(Seq::empty())
    } else if s.len() == 0 || utf8_width(s[0]) > n {
        None
    } else {
        match byte_prefix(s.drop_first(), (n - utf8_width(s[0])) as nat) {
            Some(p) => Some(seq![s[0]] + p),
            None => None,
        }
    }
}

// ── Lemmas ──────────────────────────────────────────────────────────────────

/// The first occurrence found by `first_index_of` is a real, earliest one.
pub proof fn lemma_first_index_of(s: Seq<char>, c: char)
    ensures
        match first_index_of(s, c) {
            Some(i) => 0 <= i < s.len() && s[i] == c && forall|j: int| 0 <= j < i ==> s[j] != c,
            None => forall|j: int| 0 <= j < s.len() ==> s[j] != c,
        },
    decreases s.len(),
{
    if s.len() > 0 && s[0] != c {
        lemma_first_index_of(s.drop_first(), c);
        match first_index_of(s.drop_first(), c) {
            Some(i) => {
                assert forall|j: int| 0 <= j < i + 1 implies s[j] != c by {
                    if j > 0 {
                        assert(s[j] == s.drop_first()[j - 1]);
                    }
                }
            },
            None => {
                assert forall|j: int| 0 <= j < s.len() implies s[j] != c by {
                    if j > 0 {
                        assert(s[j] == s.drop_first()[j - 1]);
                    }
                }
            },
        }
    }
}

/// A position that is a `c` with no `c` before it is what `first_index_of` finds.
pub proof fn lemma_first_index_of_is(s: Seq<char>, c: char, i: int)
    requires
        0 <= i < s.len(),
        s[i] == c,
        forall|j: int| 0 <= j < i ==> s[j] != c,
    ensures
        first_index_of(s, c) == Some(i),
{
    lemma_first_index_of(s, c);
    match first_index_of(s, c) {
        Some(k) => {
            if k < i {
            } else if k > i {
            }
        },
        None => {},
    }
}

/// No `c` in `s` means `first_index_of` finds nothing.
pub proof fn lemma_first_index_of_none(s: Seq<char>, c: char)
    requires
        forall|j: int| 0 <= j < s.len() ==> s[j] != c,
    ensures
        first_index_of(s, c) is None,
{
    lemma_first_index_of(s, c);
    if let Some(k) = first_index_of(s, c) {
        assert(s[k] == c);
    }
}

// ── Executable operations ───────────────────────────────────────────────────

/// Appends one character (`String::push`).
#[verifier::external_body]
pub(crate) fn push_char(s: &mut String, c: char)
    ensures
        final(s)@ == old(s)@.push(c),
{
    s.push(c);
}

/// `str::to_lowercase`: the result is the lower-case form named `lowercase`;
/// the Unicode case mapping itself is not stated.
#[verifier::external_body]
pub(crate) fn to_lowercase(s: &str) -> (r: String)
    ensures
        r@ == lowercase(s@),
{
    s.to_lowercase()
}

/// Whether `field` contains the already lower-cased `needle_lower`, ignoring
/// the case of `field`.
pub fn contains_lowered(field: &str, needle_lower: &[char]) -> (b: bool)
    ensures
        b == matches_lowered(field@, needle_lower@),
{
    let f = to_lowercase(field);
    let fv = chars_of(f.as_str());
    contains_chars(fv.as_slice(), needle_lower)
}

/// The characters of `s`, in order.
pub fn chars_of(s: &str) -> (v: Vec<char>)
    ensures
        v@ == s@,
{
    let mut v: Vec<char> = Vec::new();
    for c in it: s.chars()
        invariant
            v@ == it.seq().take(it.index() as int),
            it.seq() == s@,
    {
        v.push(c);
    }
    v
}

/// Appends `v[from..to]` to `out`.
pub fn push_range(out: &mut String, v: &[char], from: usize, to: usize)
    requires
        from <= to <= v@.len(),
    ensures
        final(out)@ == old(out)@ + v@.subrange(from as int, to as int),
{
    let mut i = from;
    while i < to
        invariant
            from <= i <= to <= v@.len(),
            out@ == old(out)@ + v@.subrange(from as int, i as int),
        decreases to - i,
    {
        push_char(out, v[i]);
        assert(v@.subrange(from as int, i + 1) == v@.subrange(from as int, i as int).push(v@[i as int]));
        i += 1;
    }
}

/// Appends all of `v` to `out`.
pub fn push_all(out: &mut String, v: &[char])
    ensures
        final(out)@ == old(out)@ + v@,
{
    push_range(out, v, 0, v.len());
    assert(v@.subrange(0, v@.len() as int) == v@);
}

/// A new string holding `v[from..to]`.
pub fn string_of_range(v: &[char], from: usize, to: usize) -> (s: String)
    requires
        from <= to <= v@.len(),
    ensures
        s@ == v@.subrange(from as int, to as int),
{
    let mut s = String::new();
    push_range(&mut s, v, from, to);
    assert(Seq::<char>::empty() + v@.subrange(from as int, to as int) == v@.subrange(from as int, to as int));
    s
}

/// `p` occurs in `v` at position `at`.
pub fn matches_at(v: &[char], at: usize, p: &[char]) -> (b: bool)
    requires
        at <= v@.len(),
    ensures
        b == (at + p@.len() <= v@.len() && v@.subrange(at as int, at + p@.len()) == p@),
{
    if p.len() > v.len() - at {
        return false;
    }
    let mut k: usize = 0;
    while k < p.len()
        invariant
            at + p@.len() <= v@.len(),
            k <= p@.len(),
            forall|j: int| 0 <= j < k ==> v@[at + j] == p@[j],
        decreases p.len() - k,
    {
        assert(at + k < v.len());
        if v[at + k] != p[k] {
            assert(v@.subrange(at as int, at + p@.len())[k as int] != p@[k as int]);
            return false;
        }
        k += 1;
    }
    assert(v@.subrange(at as int, at + p@.len()) =~= p@);
    true
}

/// Length of `v[..end]` once every trailing `c` is removed.
pub fn trim_end_char_len(v: &[char], end: usize, c: char) -> (n: usize)
    requires
        end <= v@.len(),
    ensures
        n <= end,
        v@.take(n as int) == trim_end_char(v@.take(end as int), c),
{
    let mut n = end;
    while n > 0 && v[n - 1] == c
        invariant
            n <= end <= v@.len(),
            trim_end_char(v@.take(end as int), c) == trim_end_char(v@.take(n as int), c),
        decreases n,
    {
        assert(v@.take(n as int).drop_last() == v@.take(n - 1));
        n -= 1;
    }
    n
}

/// Length of `v[..end]` once every trailing repetition of `p` is removed.
pub fn trim_end_pat_len(v: &[char], end: usize, p: &[char]) -> (n: usize)
    requires
        end <= v@.len(),
        p@.len() > 0,
    ensures
        n <= end,
        v@.take(n as int) == trim_end_pat(v@.take(end as int), p@),
{
    let mut n = end;
    loop
        invariant
            n <= end <= v@.len(),
            p@.len() > 0,
            trim_end_pat(v@.take(end as int), p@) == trim_end_pat(v@.take(n as int), p@),
        decreases n,
    {
        if p.len() > n {
            return n;
        }
        let at = n - p.len();
        let m = matches_at(v, at, p);
        assert(v@.take(n as int).subrange(at as int, n as int) == v@.subrange(at as int, n as int));
        if !m {
            return n;
        }
        assert(v@.take(n as int).subrange(0, at as int) == v@.take(at as int));
        n = at;
    }
}

/// Start of `v[start..]` once every leading `c` is removed.
pub fn trim_start_char_pos(v: &[char], start: usize, c: char) -> (n: usize)
    requires
        start <= v@.len(),
    ensures
        start <= n <= v@.len(),
        v@.skip(n as int) == trim_start_char(v@.skip(start as int), c),
{
    let mut n = start;
    while n < v.len() && v[n] == c
        invariant
            start <= n <= v@.len(),
            trim_start_char(v@.skip(start as int), c) == trim_start_char(v@.skip(n as int), c),
        decreases v@.len() - n,
    {
        assert(v@.skip(n as int).drop_first() == v@.skip(n + 1));
        n += 1;
    }
    n
}

/// Start of `v[start..]` once every leading repetition of `p` is removed.
pub fn trim_start_pat_pos(v: &[char], start: usize, p: &[char]) -> (n: usize)
    requires
        start <= v@.len(),
        p@.len() > 0,
    ensures
        start <= n <= v@.len(),
        v@.skip(n as int) == trim_start_pat(v@.skip(start as int), p@),
{
    let mut n = start;
    loop
        invariant
            start <= n <= v@.len(),
            p@.len() > 0,
            trim_start_pat(v@.skip(start as int), p@) == trim_start_pat(v@.skip(n as int), p@),
        decreases v@.len() - n,
    {
        let m = matches_at(v, n, p);
        if !m {
            assert(!starts_with(v@.skip(n as int), p@)) by {
                if p@.len() <= v@.skip(n as int).len() {
                    assert(v@.skip(n as int).subrange(0, p@.len() as int) == v@.subrange(n as int, n + p@.len()));
                }
            }
            return n;
        }
        assert(n + p.len() <= v.len());
        assert(v@.skip(n as int).subrange(0, p@.len() as int) == v@.subrange(n as int, n + p@.len()));
        assert(v@.skip(n as int).subrange(p@.len() as int, v@.skip(n as int).len() as int) == v@.skip(n + p@.len()));
        n = n + p.len();
    }
}

/// Index of the first `c` in `v[from..]`, relative to `from`.
pub fn find_char_from(v: &[char], from: usize, c: char) -> (r: Option<usize>)
    requires
        from <= v@.len(),
    ensures
        match r {
            Some(i) => first_index_of(v@.skip(from as int), c) == Some(i as int),
            None => first_index_of(v@.skip(from as int), c) is None,
        },
{
    let mut i = from;
    while i < v.len()
        invariant
            from <= i <= v@.len(),
            forall|j: int| from <= j < i ==> v@[j] != c,
        decreases v@.len() - i,
    {
        if v[i] == c {
            proof {
                lemma_first_index_of_is(v@.skip(from as int), c, i - from);
            }
            return Some(i - from);
        }
        i += 1;
    }
    proof {
        lemma_first_index_of_none(v@.skip(from as int), c);
    }
    None
}

/// Whether two strings hold the same characters (`==` on `str`).
pub fn str_eq(a: &str, b: &str) -> (r: bool)
    ensures
        r == (a@ == b@),
{
    let av = chars_of(a);
    let bv = chars_of(b);
    slice_eq(av.as_slice(), bv.as_slice())
}

/// Whether two character slices are equal.
pub fn slice_eq(a: &[char], b: &[char]) -> (r: bool)
    ensures
        r == (a@ == b@),
{
    if a.len() != b.len() {
        return false;
    }
    let m = matches_at(a, 0, b);
    assert(a@.subrange(0, b@.len() as int) == a@);
    m
}

/// Whether `needle` occurs in `hay` (`str::contains`).
pub fn contains_chars(hay: &[char], needle: &[char]) -> (b: bool)
    ensures
        b == contains_seq(hay@, needle@),
{
    if needle.len() > hay.len() {
        return false;
    }
    let last = hay.len() - needle.len();
    let mut i: usize = 0;
    while i <= last
        invariant
            last + needle@.len() == hay@.len(),
            i <= last + 1,
            forall|j: int| 0 <= j < i ==> #[trigger] hay@.subrange(j, j + needle@.len()) != needle@,
        decreases last + 1 - i,
    {
        if matches_at(hay, i, needle) {
            return true;
        }
        if i == last {
            return false;
        }
        i += 1;
    }
    false
}

/// Whether `c` is whitespace (`char::is_whitespace`).
pub fn char_is_whitespace(c: char) -> (b: bool)
    ensures
        b == is_whitespace(c),
{
    ('\t' <= c && c <= '\r') || c == ' ' || c == '\u{85}' || c == '\u{A0}' || c == '\u{1680}'
        || ('\u{2000}' <= c && c <= '\u{200A}') || c == '\u{2028}' || c == '\u{2029}'
        || c == '\u{202F}' || c == '\u{205F}' || c == '\u{3000}'
}

/// Whether every character of `v[from..to]` is whitespace.
pub fn range_is_blank(v: &[char], from: usize, to: usize) -> (b: bool)
    requires
        from <= to <= v@.len(),
    ensures
        b == is_blank(v@.subrange(from as int, to as int)),
{
    let mut i = from;
    while i < to
        invariant
            from <= i <= to <= v@.len(),
            forall|j: int| from <= j < i ==> is_whitespace(v@[j]),
        decreases to - i,
    {
        if !char_is_whitespace(v[i]) {
            assert(v@.subrange(from as int, to as int)[i - from] == v@[i as int]);
            return false;
        }
        i += 1;
    }
    assert forall|j: int| 0 <= j < v@.subrange(from as int, to as int).len() implies is_whitespace(
        #[trigger] v@.subrange(from as int, to as int)[j],
    ) by {
        assert(v@.subrange(from as int, to as int)[j] == v@[from + j]);
    }
    true
}

/// Bytes of `c` in UTF-8 (see `utf8_width`).
fn char_width(c: char) -> (w: usize)
    ensures
        w == utf8_width(c),
{
    let u = c as u32;
    if u < 0x80 {
        1
    } else if u < 0x800 {
        2
    } else if u < 0x10000 {
        3
    } else {
        4
    }
}

/// The leading characters of `v[from..]` that make `n` bytes (see
/// `byte_prefix`).
pub fn prefix_of_bytes(v: &[char], from: usize, n: usize) -> (r: Option<String>)
    requires
        from <= v@.len(),
    ensures
        match r {
            Some(p) => byte_prefix(v@.skip(from as int), n as nat) == Some(p@),
            None => byte_prefix(v@.skip(from as int), n as nat) is None,
        },
    decreases v@.len() - from,
{
    let ghost s = v@.skip(from as int);
    if n == 0 {
        return Some(String::new());
    }
    if from == v.len() {
        return None;
    }
    let w = char_width(v[from]);
    assert(s[0] == v@[from as int]);
    if w > n {
        return None;
    }
    assert(s.drop_first() =~= v@.skip(from + 1));
    match prefix_of_bytes(v, from + 1, n - w) {
        Some(rest) => {
            let mut out = String::new();
            push_char(&mut out, v[from]);
            let rv = chars_of(rest.as_str());
            push_all(&mut out, rv.as_slice());
            assert(out@ =~= seq![s[0]] + rest@);
            Some(out)
        },
        None => None,
    }
}

} // verus!
