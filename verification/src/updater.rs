//! Self-update decisions: comparing release versions, picking the release
//! asset for this platform, summarising release notes and download progress.
use vstd::prelude::*;
use crate::text::{
    chars_of, first_index_of, is_blank, lines, push_all, push_range, range_is_blank, str_eq,
    strip_cr, trim_start_char, trim_start_char_pos, string_of_range,
};

verus! {

// ── Version numbers ─────────────────────────────────────────────────────────

/// `c` is an ASCII decimal digit.
pub open spec fn is_digit(c: char) -> bool {
    '0' <= c && c <= '9'
}

/// Every character of `s` is a decimal digit.
pub open spec fn all_digits(s: Seq<char>) -> bool {
    forall|i: int| 0 <= i < s.len() ==> is_digit(#[trigger] s[i])
}

/// The number written by the decimal digits `s`.
pub open spec fn digits_value(s: Seq<char>) -> nat
    decreases s.len(),
{
    if s.len() == 0 {
        0
    } else {
        digits_value(s.drop_last()) * 10 + ((s.last() as int) - ('0' as int)) as nat
    }
}

/// `s` parsed as a `u32` the way `str::parse::<u32>` does: an optional `'+'`,
/// then at least one decimal digit, with a value that fits in 32 bits.
pub open spec fn parse_u32(s: Seq<char>) -> Option<u32> {
    let body = if s.len() > 0 && s[0] == '+' {
        s.drop_first()
    } else {
        s
    };
    if body.len() > 0 && all_digits(body) && digits_value(body) <= u32::MAX {
        Some(digits_value(body) as u32)
    } else {
        None
    }
}

/// The pieces of `s` between the `c`s (`str::split` with a char): there is
/// always at least one piece, possibly empty.
pub open spec fn split_on(s: Seq<char>, c: char) -> Seq<Seq<char>>
    decreases s.len(),
{
    match first_index_of(s, c) {
        None => seq![s],
        Some(i) => {
            proof {
                crate::text::lemma_first_index_of(s, c);
            }
            seq![s.take(i)] + split_on(s.skip(i + 1), c)
        },
    }
}

/// The numbers among `pieces`, in order, skipping pieces that do not parse.
pub open spec fn parsed_numbers(pieces: Seq<Seq<char>>) -> Seq<u32>
    decreases pieces.len(),
{
    if pieces.len() == 0 {
        Seq::empty()
    } else {
        match parse_u32(pieces[0]) {
            Some(n) => seq![n] + parsed_numbers(pieces.drop_first()),
            None => parsed_numbers(pieces.drop_first()),
        }
    }
}

/// The part of a version before any pre-release (`-`) or build (`+`) suffix.
pub open spec fn version_core(s: Seq<char>) -> Seq<char>
    decreases s.len(),
{
    if s.len() == 0 {
        s
    } else if s[0] == '-' || s[0] == '+' {
        Seq::empty()
    } else {
        seq![s[0]] + version_core(s.drop_first())
    }
}

/// `ns[i]`, or 0 past its end.
pub open spec fn nth_or_zero(ns: Seq<u32>, i: int) -> u32 {
    if 0 <= i < ns.len() {
        ns[i]
    } else {
        0
    }
}

/// The (major, minor, patch) triple of a version string: the first three
/// numeric dot-separated components of its core, missing ones being 0.
pub open spec fn version_triple(s: Seq<char>) -> (u32, u32, u32) {
    let ns = parsed_numbers(split_on(version_core(s), '.'));
    (nth_or_zero(ns, 0), nth_or_zero(ns, 1), nth_or_zero(ns, 2))
}

/// Lexicographic `a > b` on triples.
pub open spec fn triple_gt(a: (u32, u32, u32), b: (u32, u32, u32)) -> bool {
    a.0 > b.0 || (a.0 == b.0 && (a.1 > b.1 || (a.1 == b.1 && a.2 > b.2)))
}

/// Version `candidate` is strictly newer than version `current`.
pub open spec fn newer(candidate: Seq<char>, current: Seq<char>) -> bool {
    triple_gt(version_triple(candidate), version_triple(current))
}

proof fn lemma_digits_value_prefix_le(s: Seq<char>, k: int)
    requires
        0 <= k <= s.len(),
    ensures
        digits_value(s.take(k)) <= digits_value(s),
    decreases s.len(),
{
    if k < s.len() {
        assert(s.drop_last().take(k) == s.take(k));
        lemma_digits_value_prefix_le(s.drop_last(), k);
    } else {
        assert(s.take(k) == s);
    }
}

/// `v[from..to]` parsed as by `str::parse::<u32>`.
pub fn parse_u32_range(v: &[char], from: usize, to: usize) -> (r: Option<u32>)
    requires
        from <= to <= v@.len(),
    ensures
        r == parse_u32(v@.subrange(from as int, to as int)),
{
    let ghost s = v@.subrange(from as int, to as int);
    let mut start = from;
    if start < to && v[start] == '+' {
        start += 1;
    }
    let ghost body = v@.subrange(start as int, to as int);
    assert(body == (if s.len() > 0 && s[0] == '+' { s.drop_first() } else { s }));
    if start == to {
        assert(body.len() == 0);
        return None;
    }
    let mut acc: u64 = 0;
    let mut i = start;
    while i < to
        invariant
            from <= start < to <= v@.len(),
            start <= i <= to,
            body == v@.subrange(start as int, to as int),
            s == v@.subrange(from as int, to as int),
            body == (if s.len() > 0 && s[0] == '+' { s.drop_first() } else { s }),
            all_digits(v@.subrange(start as int, i as int)),
            acc == digits_value(v@.subrange(start as int, i as int)),
            acc <= u32::MAX,
        decreases to - i,
    {
        let c = v[i];
        if !('0' <= c && c <= '9') {
            assert(body[i - start] == c);
            assert(!is_digit(body[i - start]));
            assert(!all_digits(body));
            return None;
        }
        let d = (c as u64) - ('0' as u64);
        assert(v@.subrange(start as int, i + 1).drop_last() == v@.subrange(start as int, i as int));
        assert(v@.subrange(start as int, i + 1).last() == c);
        let next = acc * 10 + d;
        assert(next == digits_value(v@.subrange(start as int, i + 1)));
        if next > 0xFFFF_FFFFu64 {
            proof {
                assert(all_digits(v@.subrange(start as int, i + 1))) by {
                    assert forall|j: int| 0 <= j < i + 1 - start implies is_digit(
                        #[trigger] v@.subrange(start as int, i + 1)[j],
                    ) by {
                        if j < i - start {
                            assert(v@.subrange(start as int, i + 1)[j] == v@.subrange(
                                start as int,
                                i as int,
                            )[j]);
                        }
                    }
                }
                assert(body.take(i + 1 - start) == v@.subrange(start as int, i + 1));
                lemma_digits_value_prefix_le(body, i + 1 - start);
                assert(digits_value(body) > u32::MAX);
            }
            return None;
        }
        assert(all_digits(v@.subrange(start as int, i + 1))) by {
            assert forall|j: int| 0 <= j < i + 1 - start implies is_digit(
                #[trigger] v@.subrange(start as int, i + 1)[j],
            ) by {
                if j < i - start {
                    assert(v@.subrange(start as int, i + 1)[j] == v@.subrange(
                        start as int,
                        i as int,
                    )[j]);
                }
            }
        }
        acc = next;
        i += 1;
    }
    Some(acc as u32)
}

/// The (major, minor, patch) triple of a version string, as `version_triple`.
pub fn parse_version(s: &str) -> (t: (u32, u32, u32))
    ensures
        t == version_triple(s@),
{
    let v = chars_of(s);
    // The core ends at the first '-' or '+'.
    let mut end: usize = 0;
    assert(v@.skip(0) == v@);
    assert(v@.take(0) + version_core(v@) =~= version_core(v@));
    while end < v.len() && v[end] != '-' && v[end] != '+'
        invariant
            end <= v@.len(),
            version_core(v@) == v@.take(end as int) + version_core(v@.skip(end as int)),
            forall|j: int| 0 <= j < end ==> v@[j] != '-' && v@[j] != '+',
        decreases v@.len() - end,
    {
        assert(v@.skip(end as int).drop_first() == v@.skip(end + 1));
        assert(v@.take(end + 1) == v@.take(end as int) + seq![v@[end as int]]);
        end += 1;
    }
    assert(version_core(v@.skip(end as int)) == Seq::<char>::empty());
    assert(v@.take(end as int) + Seq::<char>::empty() == v@.take(end as int));
    let ghost core = v@.take(end as int);
    assert(version_core(s@) == core);
    // Collect the first three numeric components.
    let mut nums: Vec<u32> = Vec::new();
    let mut start: usize = 0;
    let ghost mut pieces: Seq<Seq<char>> = Seq::empty();
    assert(core.skip(0) == core);
    loop
        invariant_except_break
            start <= end,
            split_on(core, '.') == pieces + split_on(core.skip(start as int), '.'),
        invariant
            end <= v@.len(),
            core == v@.take(end as int),
            nums@ == parsed_numbers(pieces),
        ensures
            split_on(core, '.') == pieces,
        decreases end - start,
    {
        let mut i = start;
        while i < end && v[i] != '.'
            invariant
                start <= i <= end <= v@.len(),
                forall|j: int| start <= j < i ==> v@[j] != '.',
            decreases end - i,
        {
            i += 1;
        }
        let piece = parse_u32_range(v.as_slice(), start, i);
        let ghost rest = core.skip(start as int);
        assert(v@.subrange(start as int, i as int) == rest.take(i - start));
        if let Some(n) = piece {
            nums.push(n);
        }
        proof {
            lemma_parsed_numbers_push(pieces, rest.take(i - start));
        }
        if i == end {
            proof {
                crate::text::lemma_first_index_of_none(rest, '.');
                assert(split_on(rest, '.') == seq![rest]);
                assert(rest.take(i - start) == rest);
                pieces = pieces.push(rest);
                assert(split_on(core, '.') =~= pieces);
            }
            break;
        }
        proof {
            crate::text::lemma_first_index_of_is(rest, '.', i - start);
            assert(rest.skip(i - start + 1) == core.skip(i + 1));
            assert(split_on(rest, '.') == seq![rest.take(i - start)] + split_on(core.skip(i + 1), '.'));
            pieces = pieces.push(rest.take(i - start));
            assert(split_on(core, '.') =~= pieces + split_on(core.skip(i + 1), '.'));
        }
        start = i + 1;
    }
    let a = if nums.len() > 0 { nums[0] } else { 0 };
    let b = if nums.len() > 1 { nums[1] } else { 0 };
    let c = if nums.len() > 2 { nums[2] } else { 0 };
    (a, b, c)
}

proof fn lemma_parsed_numbers_push(pieces: Seq<Seq<char>>, p: Seq<char>)
    ensures
        parsed_numbers(pieces.push(p)) == parsed_numbers(pieces) + match parse_u32(p) {
            Some(n) => seq![n],
            None => Seq::<u32>::empty(),
        },
    decreases pieces.len(),
{
    let tail = match parse_u32(p) {
        Some(n) => seq![n],
        None => Seq::<u32>::empty(),
    };
    if pieces.len() == 0 {
        assert(pieces.push(p).drop_first() =~= Seq::<Seq<char>>::empty());
        assert(pieces.push(p)[0] == p);
        assert(parsed_numbers(Seq::<Seq<char>>::empty()) == Seq::<u32>::empty());
        assert(parsed_numbers(pieces.push(p)) =~= tail);
        assert(parsed_numbers(pieces) + tail =~= tail);
    } else {
        assert(pieces.push(p).drop_first() =~= pieces.drop_first().push(p));
        lemma_parsed_numbers_push(pieces.drop_first(), p);
        assert(pieces.push(p)[0] == pieces[0]);
        match parse_u32(pieces[0]) {
            Some(n) => {
                assert(parsed_numbers(pieces.push(p)) =~= seq![n] + (parsed_numbers(
                    pieces.drop_first(),
                ) + tail));
                assert(parsed_numbers(pieces.push(p)) =~= parsed_numbers(pieces) + tail);
            },
            None => {},
        }
    }
}

/// Whether release `candidate` is strictly newer than `current`, comparing
/// (major, minor, patch); pre-release and build suffixes are ignored.
pub fn is_newer(candidate: &str, current: &str) -> (b: bool)
    ensures
        b == newer(candidate@, current@),
{
    let a = parse_version(candidate);
    let c = parse_version(current);
    a.0 > c.0 || (a.0 == c.0 && (a.1 > c.1 || (a.1 == c.1 && a.2 > c.2)))
}

// ── Laws on versions ───────────────────────────────────────────────────────

/// No version is newer than itself.
pub proof fn lemma_newer_irreflexive(v: Seq<char>)
    ensures
        !newer(v, v),
{
}

/// Of two versions, at most one is newer than the other.
pub proof fn lemma_newer_asymmetric(a: Seq<char>, b: Seq<char>)
    ensures
        !(newer(a, b) && newer(b, a)),
{
}

/// Being newer is transitive.
pub proof fn lemma_newer_transitive(a: Seq<char>, b: Seq<char>, c: Seq<char>)
    requires
        newer(a, b),
        newer(b, c),
    ensures
        newer(a, c),
{
}

/// A pre-release or build suffix does not change a version's number: for a
/// version `v` without `'-'` or `'+'`, `v-<suffix>` and `v+<suffix>` have the
/// number of `v`.
pub proof fn lemma_suffix_ignored(v: Seq<char>, sep: char, suffix: Seq<char>)
    requires
        sep == '-' || sep == '+',
        forall|i: int| 0 <= i < v.len() ==> v[i] != '-' && v[i] != '+',
    ensures
        version_triple(v + seq![sep] + suffix) == version_triple(v),
{
    lemma_core_with_suffix(v, sep, suffix);
    lemma_core_plain(v);
}

proof fn lemma_core_with_suffix(v: Seq<char>, sep: char, suffix: Seq<char>)
    requires
        sep == '-' || sep == '+',
        forall|i: int| 0 <= i < v.len() ==> v[i] != '-' && v[i] != '+',
    ensures
        version_core(v + seq![sep] + suffix) == v,
    decreases v.len(),
{
    let w = v + seq![sep] + suffix;
    if v.len() == 0 {
        assert(w[0] == sep);
    } else {
        assert(w.drop_first() =~= v.drop_first() + seq![sep] + suffix);
        lemma_core_with_suffix(v.drop_first(), sep, suffix);
        assert(w[0] == v[0]);
        assert(seq![v[0]] + v.drop_first() =~= v);
    }
}

/// Versions are ordered by their (major, minor, patch) numbers, most
/// significant first: a version is newer exactly when its major number is
/// greater, or the major numbers agree and its minor number is greater, or
/// both agree and its patch number is greater.
pub proof fn lemma_newer_is_lexicographic(a: Seq<char>, b: Seq<char>)
    ensures
        newer(a, b) <==> ({
            let x = version_triple(a);
            let y = version_triple(b);
            ||| x.0 > y.0
            ||| (x.0 == y.0 && x.1 > y.1)
            ||| (x.0 == y.0 && x.1 == y.1 && x.2 > y.2)
        }),
{
}

/// Splitting `x.rest` at `'.'` when `x` holds no `'.'` gives `x`, then the
/// pieces of `rest`.
proof fn lemma_split_first_piece(x: Seq<char>, rest: Seq<char>)
    requires
        forall|i: int| 0 <= i < x.len() ==> x[i] != '.',
    ensures
        split_on(x + seq!['.'] + rest, '.') == seq![x] + split_on(rest, '.'),
{
    let s = x + seq!['.'] + rest;
    assert forall|j: int| 0 <= j < x.len() implies s[j] != '.' by {
        assert(s[j] == x[j]);
    }
    assert(s[x.len() as int] == '.');
    crate::text::lemma_first_index_of_is(s, '.', x.len() as int);
    assert(s.take(x.len() as int) =~= x);
    assert(s.skip(x.len() as int + 1) =~= rest);
}

/// A run of decimal digits that fits in 32 bits parses to its value.
proof fn lemma_parse_digits(x: Seq<char>)
    requires
        x.len() > 0,
        all_digits(x),
        digits_value(x) <= u32::MAX,
    ensures
        parse_u32(x) == Some(digits_value(x) as u32),
{
    assert(is_digit(x[0]));
}

/// A version written as three runs of decimal digits separated by dots,
/// `major.minor.patch`, has exactly those three numbers.
pub proof fn lemma_version_triple_of_plain(x: Seq<char>, y: Seq<char>, z: Seq<char>)
    requires
        x.len() > 0 && all_digits(x) && digits_value(x) <= u32::MAX,
        y.len() > 0 && all_digits(y) && digits_value(y) <= u32::MAX,
        z.len() > 0 && all_digits(z) && digits_value(z) <= u32::MAX,
    ensures
        version_triple(x + seq!['.'] + y + seq!['.'] + z) == (
            digits_value(x) as u32,
            digits_value(y) as u32,
            digits_value(z) as u32,
        ),
{
    let v = x + seq!['.'] + y + seq!['.'] + z;
    assert forall|i: int| 0 <= i < v.len() implies v[i] != '-' && v[i] != '+' by {
        if i < x.len() {
            assert(v[i] == x[i] && is_digit(x[i]));
        } else if i == x.len() {
        } else if i < x.len() + 1 + y.len() {
            assert(v[i] == y[i - x.len() - 1] && is_digit(y[i - x.len() - 1]));
        } else if i == x.len() + 1 + y.len() {
        } else {
            assert(v[i] == z[i - x.len() - 2 - y.len()] && is_digit(z[i - x.len() - 2 - y.len()]));
        }
    }
    lemma_core_plain(v);
    assert forall|i: int| 0 <= i < x.len() implies x[i] != '.' by { assert(is_digit(x[i])); }
    assert forall|i: int| 0 <= i < y.len() implies y[i] != '.' by { assert(is_digit(y[i])); }
    assert forall|i: int| 0 <= i < z.len() implies z[i] != '.' by { assert(is_digit(z[i])); }
    let rest = y + seq!['.'] + z;
    assert(v =~= x + seq!['.'] + rest);
    lemma_split_first_piece(x, rest);
    lemma_split_first_piece(y, z);
    crate::text::lemma_first_index_of_none(z, '.');
    assert(split_on(z, '.') == seq![z]);
    let pieces = seq![x] + (seq![y] + seq![z]);
    assert(split_on(v, '.') == pieces);
    lemma_parse_digits(x);
    lemma_parse_digits(y);
    lemma_parse_digits(z);
    assert(pieces.drop_first() =~= seq![y, z]);
    assert(seq![y, z].drop_first() =~= seq![z]);
    assert(seq![z].drop_first() =~= Seq::<Seq<char>>::empty());
    let ns = parsed_numbers(pieces);
    assert(parsed_numbers(seq![z]) == seq![digits_value(z) as u32] + parsed_numbers(Seq::<Seq<char>>::empty()));
    assert(parsed_numbers(seq![y, z]) == seq![digits_value(y) as u32] + parsed_numbers(seq![z]));
    assert(ns == seq![digits_value(x) as u32] + parsed_numbers(seq![y, z]));
    assert(ns =~= seq![digits_value(x) as u32, digits_value(y) as u32, digits_value(z) as u32]);
}

proof fn lemma_core_plain(v: Seq<char>)
    requires
        forall|i: int| 0 <= i < v.len() ==> v[i] != '-' && v[i] != '+',
    ensures
        version_core(v) == v,
    decreases v.len(),
{
    if v.len() > 0 {
        lemma_core_plain(v.drop_first());
        assert(seq![v[0]] + v.drop_first() =~= v);
    }
}

// ── Release selection ───────────────────────────────────────────────────────

/// A file attached to a release.
#[derive(Debug, Clone, PartialEq)]
pub struct ReleaseAsset {
    pub name: String,
    pub browser_download_url: String,
}

/// An available update.
#[derive(Debug, Clone, PartialEq)]
pub struct UpdateInfo {
    pub latest_version: String,
    pub download_url: String,
    pub release_notes: String,
}

/// Why a newer release cannot be installed.
#[derive(Debug, Clone, PartialEq)]
pub enum UpdateError {
    /// The release has no asset with the name this platform needs.
    MissingAsset { tag_name: String, asset_name: String },
}

/// `" · "`
pub open spec fn notes_separator() -> Seq<char> {
    seq![' ', '\u{B7}', ' ']
}

/// The lines of `ls` that are not blank, in order.
pub open spec fn non_blank(ls: Seq<Seq<char>>) -> Seq<Seq<char>>
    decreases ls.len(),
{
    if ls.len() == 0 {
        Seq::empty()
    } else if is_blank(ls.last()) {
        non_blank(ls.drop_last())
    } else {
        non_blank(ls.drop_last()).push(ls.last())
    }
}

/// The pieces of `ls` with `sep` between consecutive ones.
pub open spec fn join(ls: Seq<Seq<char>>, sep: Seq<char>) -> Seq<char>
    decreases ls.len(),
{
    if ls.len() == 0 {
        Seq::empty()
    } else if ls.len() == 1 {
        ls[0]
    } else {
        join(ls.drop_last(), sep) + sep + ls.last()
    }
}

/// A one-line summary of release notes: the first three non-blank lines,
/// joined by `" · "`.
pub open spec fn notes_summary(body: Seq<char>) -> Seq<char> {
    join(at_most(non_blank(lines(body)), 3), notes_separator())
}

/// The first `n` elements of `s` (all of `s` when it is shorter).
pub open spec fn at_most<A>(s: Seq<A>, n: nat) -> Seq<A> {
    if s.len() <= n {
        s
    } else {
        s.take(n as int)
    }
}

/// Name of the release asset for a platform: the `.exe` on Windows, the
/// Linux binary everywhere else.
pub open spec fn asset_name_for(target_is_windows: bool) -> Seq<char> {
    if target_is_windows {
        "git-tree-windows-x86_64.exe"@
    } else {
        "git-tree-linux-x86_64"@
    }
}

/// Index of the first asset of `assets` named `name`.
pub open spec fn index_of_asset(assets: Seq<ReleaseAsset>, name: Seq<char>) -> Option<int>
    decreases assets.len(),
{
    if assets.len() == 0 {
        None
    } else if assets[0].name@ == name {
        Some(0)
    } else {
        match index_of_asset(assets.drop_first(), name) {
            Some(i) => Some(i + 1),
            None => None,
        }
    }
}

/// What checking release `tag_name` against version `current` decides: no
/// update when the tag (without its leading `'v'`s) is not newer; otherwise
/// the first asset named `asset_name`, or an error when there is none.
pub open spec fn update_plan(
    tag_name: Seq<char>,
    body: Seq<char>,
    assets: Seq<ReleaseAsset>,
    current: Seq<char>,
    asset_name: Seq<char>,
) -> Result<Option<(Seq<char>, Seq<char>, Seq<char>)>, ()> {
    if !newer(trim_start_char(tag_name, 'v'), current) {
        Ok(None)
    } else {
        match index_of_asset(assets, asset_name) {
            Some(i) => Ok(Some((tag_name, assets[i].browser_download_url@, notes_summary(body)))),
            None => Err(()),
        }
    }
}

/// `index_of_asset` finds the first asset with exactly the given name, and
/// none when no asset has it.
proof fn lemma_index_of_asset(assets: Seq<ReleaseAsset>, name: Seq<char>)
    ensures
        match index_of_asset(assets, name) {
            Some(i) => 0 <= i < assets.len() && assets[i].name@ == name && forall|j: int|
                0 <= j < i ==> assets[j].name@ != name,
            None => forall|j: int| 0 <= j < assets.len() ==> assets[j].name@ != name,
        },
    decreases assets.len(),
{
    if assets.len() > 0 && assets[0].name@ != name {
        let d = assets.drop_first();
        lemma_index_of_asset(d, name);
        assert forall|j: int| 1 <= j < assets.len() implies assets[j] == d[j - 1] by {}
        match index_of_asset(d, name) {
            Some(i) => {
                assert forall|j: int| 0 <= j < i + 1 implies assets[j].name@ != name by {
                    if j > 0 {
                        assert(assets[j] == d[j - 1]);
                    }
                }
            },
            None => {
                assert forall|j: int| 0 <= j < assets.len() implies assets[j].name@ != name by {
                    if j > 0 {
                        assert(assets[j] == d[j - 1]);
                    }
                }
            },
        }
    }
}

/// A release is installed only when its tag is newer than the running
/// version; the file downloaded is then the first asset whose name is
/// exactly the platform's asset name, and the update fails exactly when no
/// asset has that name.
pub proof fn lemma_update_picks_exact_asset(
    tag_name: Seq<char>,
    body: Seq<char>,
    assets: Seq<ReleaseAsset>,
    current: Seq<char>,
    asset_name: Seq<char>,
)
    ensures
        (update_plan(tag_name, body, assets, current, asset_name) == Ok::<
            Option<(Seq<char>, Seq<char>, Seq<char>)>,
            (),
        >(None)) <==> !newer(trim_start_char(tag_name, 'v'), current),
        update_plan(tag_name, body, assets, current, asset_name) matches Ok(Some((v, url, _))) ==> {
            &&& newer(trim_start_char(tag_name, 'v'), current)
            &&& v == tag_name
            &&& exists|i: int|
                0 <= i < assets.len() && assets[i].name@ == asset_name && url == assets[i].browser_download_url@
                    && forall|j: int| 0 <= j < i ==> assets[j].name@ != asset_name
        },
        update_plan(tag_name, body, assets, current, asset_name) is Err ==> newer(
            trim_start_char(tag_name, 'v'),
            current,
        ) && forall|j: int| 0 <= j < assets.len() ==> assets[j].name@ != asset_name,
{
    lemma_index_of_asset(assets, asset_name);
}

proof fn lemma_non_blank_append(a: Seq<Seq<char>>, b: Seq<Seq<char>>)
    ensures
        non_blank(a + b) == non_blank(a) + non_blank(b),
    decreases b.len(),
{
    if b.len() == 0 {
        assert(a + b =~= a);
        assert(non_blank(a) + non_blank(b) =~= non_blank(a));
    } else {
        assert((a + b).drop_last() =~= a + b.drop_last());
        assert((a + b).last() == b.last());
        lemma_non_blank_append(a, b.drop_last());
        if is_blank(b.last()) {
        } else {
            assert(non_blank(a) + non_blank(b.drop_last()).push(b.last()) =~= (non_blank(a)
                + non_blank(b.drop_last())).push(b.last()));
        }
    }
}

proof fn lemma_lines_step(s: Seq<char>, p: int)
    requires
        0 <= p < s.len(),
    ensures
        match first_index_of(s.skip(p), '\n') {
            None => lines(s.skip(p)) == seq![s.skip(p)],
            Some(i) => 0 <= i && p + i < s.len() && lines(s.skip(p)) == seq![strip_cr(s.subrange(p, p + i))]
                + lines(s.skip(p + i + 1)),
        },
{
    crate::text::lemma_first_index_of(s.skip(p), '\n');
    if let Some(i) = first_index_of(s.skip(p), '\n') {
        assert(s.skip(p).take(i) =~= s.subrange(p, p + i));
        assert(s.skip(p).skip(i + 1) =~= s.skip(p + i + 1));
    }
}

/// A one-line summary of release notes: the first three non-blank lines of
/// `body`, joined by `" · "`.
pub fn summarize_notes(body: &str) -> (r: String)
    ensures
        r@ == notes_summary(body@),
{
    let v = chars_of(body);
    let sep = vec![' ', '\u{B7}', ' '];
    assert(sep@ == notes_separator());
    let mut out = String::new();
    let mut kept: usize = 0;
    let mut p: usize = 0;
    let ghost mut seen: Seq<Seq<char>> = Seq::empty();
    assert(v@.skip(0) == v@);
    assert(Seq::<Seq<char>>::empty() + lines(v@) =~= lines(v@));
    while p < v.len() && kept < 3
        invariant
            v@ == body@,
            sep@ == notes_separator(),
            p <= v@.len(),
            lines(v@) == seen + lines(v@.skip(p as int)),
            kept == non_blank(seen).len(),
            kept <= 3,
            out@ == join(non_blank(seen), notes_separator()),
        decreases v@.len() - p,
    {
        proof {
            lemma_lines_step(v@, p as int);
        }
        let (line_end, next, ended) = match find_newline(v.as_slice(), p) {
            Some(i) => (i, i + 1, true),
            None => (v.len(), v.len(), false),
        };
        // Drop one '\r' before a '\n'.
        let content_end = if ended && line_end > p && v[line_end - 1] == '\r' { line_end - 1 } else { line_end };
        let ghost line = v@.subrange(p as int, line_end as int);
        let ghost shown = if ended { strip_cr(line) } else { line };
        assert(shown == v@.subrange(p as int, content_end as int)) by {
            if ended && line_end > p && v@[line_end - 1] == '\r' {
                assert(line.drop_last() =~= v@.subrange(p as int, content_end as int));
            }
        }
        let blank = range_is_blank(v.as_slice(), p, content_end);
        let ghost old_seen = seen;
        proof {
            if next == v.len() && line_end == v.len() {
                assert(v@.skip(p as int) =~= line);
                assert(v@.skip(next as int) =~= Seq::<char>::empty());
            }
            seen = seen.push(shown);
            assert(lines(v@) =~= seen + lines(v@.skip(next as int)));
            assert(seen.drop_last() =~= old_seen);
            assert(seen.last() == shown);
        }
        if !blank {
            if kept > 0 {
                push_all(&mut out, sep.as_slice());
            }
            push_range(&mut out, v.as_slice(), p, content_end);
            proof {
                assert(non_blank(seen) =~= non_blank(old_seen).push(shown));
                if kept == 0 {
                    assert(out@ =~= join(non_blank(seen), notes_separator()));
                } else {
                    assert(non_blank(seen).drop_last() =~= non_blank(old_seen));
                }
            }
            kept += 1;
        } else {
            assert(non_blank(seen) =~= non_blank(old_seen));
        }
        p = next;
    }
    proof {
        if kept == 3 {
            lemma_non_blank_append(seen, lines(v@.skip(p as int)));
            assert(at_most(non_blank(lines(v@)), 3) =~= non_blank(seen));
        } else {
            assert(v@.skip(p as int) =~= Seq::<char>::empty());
            assert(lines(v@.skip(p as int)) =~= Seq::<Seq<char>>::empty());
            assert(lines(v@) =~= seen);
            assert(at_most(non_blank(lines(v@)), 3) =~= non_blank(seen));
        }
    }
    out
}

/// Position of the first `'\n'` at or after `from`.
fn find_newline(v: &[char], from: usize) -> (r: Option<usize>)
    requires
        from <= v@.len(),
    ensures
        match r {
            Some(i) => from <= i < v@.len() && first_index_of(v@.skip(from as int), '\n') == Some(
                i - from,
            ),
            None => first_index_of(v@.skip(from as int), '\n') is None,
        },
{
    match crate::text::find_char_from(v, from, '\n') {
        Some(k) => {
            proof {
                crate::text::lemma_first_index_of(v@.skip(from as int), '\n');
            }
            assert(from + k < v.len());
            Some(from + k)
        },
        None => None,
    }
}

/// The release asset for a platform: the Windows `.exe` or the Linux binary.
pub fn platform_asset_name(target_is_windows: bool) -> (name: &'static str)
    ensures
        name@ == asset_name_for(target_is_windows),
{
    if target_is_windows {
        "git-tree-windows-x86_64.exe"
    } else {
        "git-tree-linux-x86_64"
    }
}

/// Decides on a release: `Ok(None)` when release `tag_name` (with leading
/// `'v'`s removed) is not newer than `current`; otherwise the update found
/// through the first asset named `asset_name`, or `MissingAsset`.
pub fn plan_update(
    tag_name: &str,
    body: &str,
    assets: &Vec<ReleaseAsset>,
    current: &str,
    asset_name: &str,
) -> (r: Result<Option<UpdateInfo>, UpdateError>)
    ensures
        match update_plan(tag_name@, body@, assets@, current@, asset_name@) {
            Ok(None) => r == Ok::<Option<UpdateInfo>, UpdateError>(None),
            Ok(Some((v, url, notes))) => r matches Ok(Some(info)) && info.latest_version@ == v
                && info.download_url@ == url && info.release_notes@ == notes,
            Err(()) => r matches Err(UpdateError::MissingAsset { tag_name: t, asset_name: a })
                && t@ == tag_name@ && a@ == asset_name@,
        },
{
    let tv = chars_of(tag_name);
    let start = trim_start_char_pos(tv.as_slice(), 0, 'v');
    assert(tv@.skip(0) == tv@);
    let latest = string_of_range(tv.as_slice(), start, tv.len());
    assert(tv@.subrange(start as int, tv@.len() as int) == tv@.skip(start as int));
    assert(latest@ == trim_start_char(tag_name@, 'v'));
    if !is_newer(latest.as_str(), current) {
        return Ok(None);
    }
    let mut i: usize = 0;
    assert(assets@.skip(0) == assets@);
    while i < assets.len()
        invariant
            i <= assets@.len(),
            newer(trim_start_char(tag_name@, 'v'), current@),
            index_of_asset(assets@, asset_name@) == match index_of_asset(
                assets@.skip(i as int),
                asset_name@,
            ) {
                Some(k) => Some(k + i),
                None => None,
            },
        decreases assets.len() - i,
    {
        if str_eq(assets[i].name.as_str(), asset_name) {
            assert(assets@.skip(i as int)[0] == assets@[i as int]);
            assert(index_of_asset(assets@, asset_name@) == Some(i as int));
            let notes = summarize_notes(body);
            let url = assets[i].browser_download_url.clone();
            assert(url@ == assets@[i as int].browser_download_url@);
            return Ok(
                Some(
                    UpdateInfo {
                        latest_version: string_of_str(tag_name),
                        download_url: url,
                        release_notes: notes,
                    },
                ),
            );
        }
        assert(assets@.skip(i as int).drop_first() == assets@.skip(i + 1));
        i += 1;
    }
    Err(
        UpdateError::MissingAsset {
            tag_name: string_of_str(tag_name),
            asset_name: string_of_str(asset_name),
        },
    )
}

/// An owned copy of `s`.
pub fn string_of_str(s: &str) -> (r: String)
    ensures
        r@ == s@,
{
    let v = chars_of(s);
    let r = string_of_range(v.as_slice(), 0, v.len());
    assert(v@.subrange(0, v@.len() as int) == v@);
    r
}

/// Download progress in percent, `((downloaded * 100) / total) as u8`, or
/// `None` while the total size is unknown (0).
pub fn progress_percent(downloaded: u64, total: u64) -> (r: Option<u8>)
    requires
        downloaded * 100 <= u64::MAX,
    ensures
        total == 0 ==> r is None,
        total > 0 ==> r == Some((((downloaded * 100) / (total as int)) % 256) as u8),
        0 < total && downloaded <= total ==> (r matches Some(p) && p <= 100),
{
    if total > 0 {
        let q = (downloaded * 100) / total;
        assert(downloaded <= total ==> q <= 100) by (nonlinear_arith)
            requires
                q == (downloaded * 100) / (total as int),
                total > 0,
        ;
        let r = q as u8;
        assert((q as u8) == q % 256) by (bit_vector);
        Some(r)
    } else {
        None
    }
}

} // verus!
