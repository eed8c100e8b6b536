use git_tree_viz::theme::{color_for_digest_byte, contributor_color, default_theme, theme_by_name, themes};

#[test]
fn default_is_terminal() {
    let t = default_theme();
    assert_eq!(t.name, "Terminal");
    assert_eq!(t.accent, "#9B5DE5");
    assert_eq!(t, themes()[0]);
}

#[test]
fn themes_are_found_by_name() {
    for t in themes() {
        assert_eq!(theme_by_name(t.name), t);
    }
    assert_eq!(themes().len(), 15);
    assert_eq!(theme_by_name("Tokyo Night").bg, "#1A1B26");
    assert_eq!(themes()[14].name, "Everforest");
    assert_eq!(theme_by_name("Nord").bg, "#2E3440");
    assert_eq!(theme_by_name("Blood Moon").danger, "#FF0022");
}

#[test]
fn unknown_theme_falls_back_to_default() {
    assert_eq!(theme_by_name("Solarized"), default_theme());
    assert_eq!(theme_by_name("terminal"), default_theme());
    assert_eq!(theme_by_name(""), default_theme());
}

#[test]
fn digest_byte_picks_palette_entry() {
    assert_eq!(color_for_digest_byte(0), "#9B5DE5");
    assert_eq!(color_for_digest_byte(11), "#3A86FF");
    assert_eq!(color_for_digest_byte(12), "#9B5DE5");
    assert_eq!(color_for_digest_byte(255), "#F15BB5");
}

#[test]
fn contributor_color_follows_sha256() {
    // SHA-256("") starts with 0xe3 = 227, and 227 % 12 == 11.
    assert_eq!(contributor_color(""), "#3A86FF");
    // SHA-256("abc") starts with 0xba = 186, and 186 % 12 == 6.
    assert_eq!(contributor_color("abc"), "#06D6A0");
    assert_eq!(contributor_color("dev@example.com"), contributor_color("dev@example.com"));
}
