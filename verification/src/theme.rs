//! Colour themes and the colour given to each contributor.
use vstd::prelude::*;
use sha2::Digest;
use vstd::string::StringSliceAdditionalSpecFns;
use crate::text::str_eq;

verus! {

/// A colour theme: its name and the colours of each part of the interface.
#[derive(Debug, Clone, Copy, PartialEq)]
pub struct Theme {
    pub name: &'static str,
    pub bg: &'static str,
    /// Panels and cards.
    pub bg_secondary: &'static str,
    pub text: &'static str,
    pub text_muted: &'static str,
    /// Primary accent.
    pub accent: &'static str,
    pub border: &'static str,
    /// Added lines.
    pub success: &'static str,
    /// Removed lines.
    pub danger: &'static str,
}

// ── Theme table ─────────────────────────────────────────────────────────────

/// All built-in themes, the default one first.
pub open spec fn theme_table() -> Seq<Theme> {
    seq![
        Theme { name: "Terminal", bg: "#000000", bg_secondary: "#0a0a0a", text: "#FFFFFF", text_muted: "#666666", accent: "#9B5DE5", border: "#9B5DE5", success: "#00FF85", danger: "#FF2244" },
        Theme { name: "Matrix", bg: "#000000", bg_secondary: "#001200", text: "#00FF41", text_muted: "#005500", accent: "#00FF41", border: "#00AA20", success: "#00FF41", danger: "#FF2244" },
        Theme { name: "Amber", bg: "#0D0800", bg_secondary: "#1a1000", text: "#FFB000", text_muted: "#7A5500", accent: "#FFB000", border: "#7A5500", success: "#FFD700", danger: "#FF4411" },
        Theme { name: "Synthwave", bg: "#0D0221", bg_secondary: "#140330", text: "#FF00FF", text_muted: "#660066", accent: "#00FFFF", border: "#FF00FF", success: "#00FFAA", danger: "#FF2244" },
        Theme { name: "Nord", bg: "#2E3440", bg_secondary: "#3B4252", text: "#ECEFF4", text_muted: "#4C566A", accent: "#88C0D0", border: "#81A1C1", success: "#A3BE8C", danger: "#BF616A" },
        Theme { name: "Dracula", bg: "#282A36", bg_secondary: "#1E1F29", text: "#F8F8F2", text_muted: "#6272A4", accent: "#FF79C6", border: "#BD93F9", success: "#50FA7B", danger: "#FF5555" },
        Theme { name: "Gruvbox", bg: "#282828", bg_secondary: "#1D2021", text: "#EBDBB2", text_muted: "#928374", accent: "#B8BB26", border: "#FABD2F", success: "#B8BB26", danger: "#CC241D" },
        Theme { name: "Blood Moon", bg: "#10000A", bg_secondary: "#1A000F", text: "#FFE4E4", text_muted: "#550022", accent: "#FF2244", border: "#880022", success: "#FF6680", danger: "#FF0022" },
        Theme { name: "Ice Terminal", bg: "#050F1A", bg_secondary: "#0A1A2A", text: "#E0F4FF", text_muted: "#1A4060", accent: "#00CFFF", border: "#005F7A", success: "#00FF85", danger: "#FF2244" },
        Theme { name: "Light", bg: "#FAFAF7", bg_secondary: "#F0EFEA", text: "#1A1A1A", text_muted: "#8A8A8A", accent: "#6A3FC1", border: "#D8D6CF", success: "#1E8E3E", danger: "#D93025" },
        Theme { name: "Dark", bg: "#000000", bg_secondary: "#050505", text: "#D0D0D0", text_muted: "#4A4A4A", accent: "#BBBBBB", border: "#222222", success: "#00C86E", danger: "#E0303F" },
        Theme { name: "Tokyo Night", bg: "#1A1B26", bg_secondary: "#16161E", text: "#C0CAF5", text_muted: "#565F89", accent: "#7AA2F7", border: "#3B4261", success: "#9ECE6A", danger: "#F7768E" },
        Theme { name: "Cappuccino Mocha", bg: "#1E1E2E", bg_secondary: "#181825", text: "#CDD6F4", text_muted: "#6C7086", accent: "#CBA6F7", border: "#45475A", success: "#A6E3A1", danger: "#F38BA8" },
        Theme { name: "Rose Pine", bg: "#191724", bg_secondary: "#1F1D2E", text: "#E0DEF4", text_muted: "#6E6A86", accent: "#C4A7E7", border: "#403D52", success: "#9CCFD8", danger: "#EB6F92" },
        Theme { name: "Everforest", bg: "#2D353B", bg_secondary: "#232A2E", text: "#D3C6AA", text_muted: "#859289", accent: "#A7C080", border: "#475258", success: "#A7C080", danger: "#E67E80" },
    ]
}

/// Index of the first theme of `ts` named `name`.
pub open spec fn index_of_theme(ts: Seq<Theme>, name: Seq<char>) -> Option<int>
    decreases ts.len(),
{
    if ts.len() == 0 {
        None
    } else if ts[0].name@ == name {
        Some(0)
    } else {
        match index_of_theme(ts.drop_first(), name) {
            Some(i) => Some(i + 1),
            None => None,
        }
    }
}

/// The theme called `name`, or the default theme when there is none.
pub open spec fn theme_named(name: Seq<char>) -> Theme {
    match index_of_theme(theme_table(), name) {
        Some(i) => theme_table()[i],
        None => theme_table()[0],
    }
}

/// Every built-in theme is found by its own name, and an unknown name gives
/// the default theme.
pub proof fn lemma_theme_by_own_name(i: int, other: Seq<char>)
    requires
        0 <= i < theme_table().len(),
        forall|j: int| 0 <= j < theme_table().len() ==> theme_table()[j].name@ != other,
    ensures
        theme_named(theme_table()[i].name@) == theme_table()[i],
        theme_named(other) == theme_table()[0],
{
    reveal_strlit("Terminal");
    reveal_strlit("Matrix");
    reveal_strlit("Amber");
    reveal_strlit("Synthwave");
    reveal_strlit("Nord");
    reveal_strlit("Dracula");
    reveal_strlit("Gruvbox");
    reveal_strlit("Blood Moon");
    reveal_strlit("Ice Terminal");
    reveal_strlit("Light");
    reveal_strlit("Dark");
    reveal_strlit("Tokyo Night");
    reveal_strlit("Cappuccino Mocha");
    reveal_strlit("Rose Pine");
    reveal_strlit("Everforest");
    reveal_with_fuel(index_of_theme, 16);
    let t = theme_table();
    assert forall|a: int, b: int| 0 <= a < b < t.len() implies t[a].name@ != t[b].name@ by {
        if t[a].name@ == t[b].name@ {
            assert(t[a].name@.len() == t[b].name@.len());
            assert(t[a].name@[0] == t[b].name@[0]);
        }
    }
    lemma_index_of_theme_absent(t, other);
    lemma_index_of_theme_first(t, i);
}

proof fn lemma_index_of_theme_absent(ts: Seq<Theme>, name: Seq<char>)
    requires
        forall|j: int| 0 <= j < ts.len() ==> ts[j].name@ != name,
    ensures
        index_of_theme(ts, name) is None,
    decreases ts.len(),
{
    if ts.len() > 0 {
        assert forall|j: int| 0 <= j < ts.drop_first().len() implies (#[trigger] ts.drop_first()[j]).name@ != name by {
            assert(ts.drop_first()[j] == ts[j + 1]);
        }
        lemma_index_of_theme_absent(ts.drop_first(), name);
    }
}

proof fn lemma_index_of_theme_first(ts: Seq<Theme>, i: int)
    requires
        0 <= i < ts.len(),
        forall|j: int| 0 <= j < i ==> ts[j].name@ != ts[i].name@,
    ensures
        index_of_theme(ts, ts[i].name@) == Some(i),
    decreases i,
{
    if i > 0 {
        assert forall|j: int| 0 <= j < i - 1 implies (#[trigger] ts.drop_first()[j]).name@ != ts.drop_first()[i - 1].name@ by {
            assert(ts.drop_first()[j] == ts[j + 1]);
        }
        lemma_index_of_theme_first(ts.drop_first(), i - 1);
    }
}

/// All built-in themes, in display order; the first is the default.
pub fn themes() -> (v: Vec<Theme>)
    ensures
        v@ == theme_table(),
{
    vec![
        Theme { name: "Terminal", bg: "#000000", bg_secondary: "#0a0a0a", text: "#FFFFFF", text_muted: "#666666", accent: "#9B5DE5", border: "#9B5DE5", success: "#00FF85", danger: "#FF2244" },
        Theme { name: "Matrix", bg: "#000000", bg_secondary: "#001200", text: "#00FF41", text_muted: "#005500", accent: "#00FF41", border: "#00AA20", success: "#00FF41", danger: "#FF2244" },
        Theme { name: "Amber", bg: "#0D0800", bg_secondary: "#1a1000", text: "#FFB000", text_muted: "#7A5500", accent: "#FFB000", border: "#7A5500", success: "#FFD700", danger: "#FF4411" },
        Theme { name: "Synthwave", bg: "#0D0221", bg_secondary: "#140330", text: "#FF00FF", text_muted: "#660066", accent: "#00FFFF", border: "#FF00FF", success: "#00FFAA", danger: "#FF2244" },
        Theme { name: "Nord", bg: "#2E3440", bg_secondary: "#3B4252", text: "#ECEFF4", text_muted: "#4C566A", accent: "#88C0D0", border: "#81A1C1", success: "#A3BE8C", danger: "#BF616A" },
        Theme { name: "Dracula", bg: "#282A36", bg_secondary: "#1E1F29", text: "#F8F8F2", text_muted: "#6272A4", accent: "#FF79C6", border: "#BD93F9", success: "#50FA7B", danger: "#FF5555" },
        Theme { name: "Gruvbox", bg: "#282828", bg_secondary: "#1D2021", text: "#EBDBB2", text_muted: "#928374", accent: "#B8BB26", border: "#FABD2F", success: "#B8BB26", danger: "#CC241D" },
        Theme { name: "Blood Moon", bg: "#10000A", bg_secondary: "#1A000F", text: "#FFE4E4", text_muted: "#550022", accent: "#FF2244", border: "#880022", success: "#FF6680", danger: "#FF0022" },
        Theme { name: "Ice Terminal", bg: "#050F1A", bg_secondary: "#0A1A2A", text: "#E0F4FF", text_muted: "#1A4060", accent: "#00CFFF", border: "#005F7A", success: "#00FF85", danger: "#FF2244" },
        Theme { name: "Light", bg: "#FAFAF7", bg_secondary: "#F0EFEA", text: "#1A1A1A", text_muted: "#8A8A8A", accent: "#6A3FC1", border: "#D8D6CF", success: "#1E8E3E", danger: "#D93025" },
        Theme { name: "Dark", bg: "#000000", bg_secondary: "#050505", text: "#D0D0D0", text_muted: "#4A4A4A", accent: "#BBBBBB", border: "#222222", success: "#00C86E", danger: "#E0303F" },
        Theme { name: "Tokyo Night", bg: "#1A1B26", bg_secondary: "#16161E", text: "#C0CAF5", text_muted: "#565F89", accent: "#7AA2F7", border: "#3B4261", success: "#9ECE6A", danger: "#F7768E" },
        Theme { name: "Cappuccino Mocha", bg: "#1E1E2E", bg_secondary: "#181825", text: "#CDD6F4", text_muted: "#6C7086", accent: "#CBA6F7", border: "#45475A", success: "#A6E3A1", danger: "#F38BA8" },
        Theme { name: "Rose Pine", bg: "#191724", bg_secondary: "#1F1D2E", text: "#E0DEF4", text_muted: "#6E6A86", accent: "#C4A7E7", border: "#403D52", success: "#9CCFD8", danger: "#EB6F92" },
        Theme { name: "Everforest", bg: "#2D353B", bg_secondary: "#232A2E", text: "#D3C6AA", text_muted: "#859289", accent: "#A7C080", border: "#475258", success: "#A7C080", danger: "#E67E80" },
    ]
}

/// The default theme ("Terminal", purple accent).
pub fn default_theme() -> (t: Theme)
    ensures
        t == theme_table()[0],
{
    let ts = themes();
    ts[0]
}

/// The theme called `name`; an unknown name gives the default theme.
pub fn theme_by_name(name: &str) -> (t: Theme)
    ensures
        t == theme_named(name@),
{
    let ts = themes();
    let mut i: usize = 0;
    assert(ts@.skip(0) == ts@);
    while i < ts.len()
        invariant
            ts@ == theme_table(),
            i <= ts@.len(),
            index_of_theme(theme_table(), name@) == match index_of_theme(ts@.skip(i as int), name@) {
                Some(k) => Some(k + i),
                None => None,
            },
        decreases ts.len() - i,
    {
        if str_eq(ts[i].name, name) {
            return ts[i];
        }
        assert(ts@.skip(i as int).drop_first() == ts@.skip(i + 1));
        i += 1;
    }
    ts[0]
}

// ── Contributor colours ─────────────────────────────────────────────────────

/// The SHA-256 digest of `data`.
pub uninterp spec fn sha256_of(data: Seq<u8>) -> Seq<u8>;

/// SHA-256 of `data`, from the `sha2` crate: the result is the digest named
/// `sha256_of`, 32 bytes long; nothing more of the hash function is stated.
#[verifier::external_body]
fn sha256_digest(data: &[u8]) -> (d: Vec<u8>)
    ensures
        d@ == sha256_of(data@),
        d@.len() == 32,
{
    let mut hasher = sha2::Sha256::new();
    hasher.update(data);
    hasher.finalize().to_vec()
}

/// Distinct colours handed out to contributors.
pub open spec fn contributor_palette() -> Seq<&'static str> {
    seq![
        "#9B5DE5", "#00F5D4", "#FEE440", "#F15BB5", "#00BBF9", "#FF6B35",
        "#06D6A0", "#EF233C", "#4CC9F0", "#F72585", "#7209B7", "#3A86FF",
    ]
}

/// The colour of the contributor whose e-mail hashes to a digest starting
/// with `first_byte`: the palette entry at `first_byte % 12`.
pub fn color_for_digest_byte(first_byte: u8) -> (c: &'static str)
    ensures
        c == contributor_palette()[(first_byte % 12) as int],
{
    let i = first_byte % 12;
    if i == 0 {
        "#9B5DE5"
    } else if i == 1 {
        "#00F5D4"
    } else if i == 2 {
        "#FEE440"
    } else if i == 3 {
        "#F15BB5"
    } else if i == 4 {
        "#00BBF9"
    } else if i == 5 {
        "#FF6B35"
    } else if i == 6 {
        "#06D6A0"
    } else if i == 7 {
        "#EF233C"
    } else if i == 8 {
        "#4CC9F0"
    } else if i == 9 {
        "#F72585"
    } else if i == 10 {
        "#7209B7"
    } else {
        "#3A86FF"
    }
}

/// The colour of a contributor, derived from the SHA-256 of their e-mail so
/// that the same e-mail always gets the same colour.
pub fn contributor_color(email: &str) -> (c: &'static str)
    ensures
        c == contributor_palette()[(sha256_of(email.spec_bytes())[0] % 12) as int],
{
    let digest = sha256_digest(email.as_bytes());
    color_for_digest_byte(digest[0])
}

} // verus!
