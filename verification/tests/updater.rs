use git_tree_viz::updater::{
    is_newer, parse_version, plan_update, platform_asset_name, progress_percent, summarize_notes,
    ReleaseAsset, UpdateError,
};

#[test]
fn newer_patch() {
    assert!(is_newer("0.3.1", "0.3.0"));
}

#[test]
fn newer_minor() {
    assert!(is_newer("0.4.0", "0.3.9"));
}

#[test]
fn same_version() {
    assert!(!is_newer("0.3.0", "0.3.0"));
}

#[test]
fn older() {
    assert!(!is_newer("0.2.9", "0.3.0"));
}

#[test]
fn prerelease() {
    assert!(is_newer("0.4.0-beta.1", "0.3.0"));
}

#[test]
fn version_parts_skip_non_numbers() {
    assert_eq!(parse_version("1.x.2.3"), (1, 2, 3));
    assert_eq!(parse_version("+4.5"), (0, 0, 0));
    assert_eq!(parse_version("4.+5"), (4, 0, 0));
    assert_eq!(parse_version(""), (0, 0, 0));
    assert_eq!(parse_version("2.0.1+build.7"), (2, 0, 1));
    assert_eq!(parse_version("1.4294967296.3"), (1, 3, 0));
    assert_eq!(parse_version("1.4294967295.3"), (1, 4294967295, 3));
    assert_eq!(parse_version("1.++2.-3"), (1, 0, 0));
}

#[test]
fn newer_is_irreflexive_and_asymmetric() {
    for v in ["0.1.0", "1.2.3", "10.0.0-rc1", "x"] {
        assert!(!is_newer(v, v));
    }
    assert!(is_newer("1.10.0", "1.9.9"));
    assert!(!is_newer("1.9.9", "1.10.0"));
}

#[test]
fn notes_summary_takes_three_nonblank_lines() {
    let body = "First line\r\n\n   \t\nSecond\nThird\nFourth\n";
    assert_eq!(summarize_notes(body), "First line · Second · Third");
    assert_eq!(summarize_notes(""), "");
    // A final line keeps a "\r" that no "\n" follows, as `str::lines` does.
    assert_eq!(summarize_notes("only\r"), "only\r");
    assert_eq!(summarize_notes("only\r\n"), "only");
    assert_eq!(summarize_notes("\u{3000}\nx"), "x");
}

fn assets() -> Vec<ReleaseAsset> {
    vec![
        ReleaseAsset {
            name: "git-tree-windows-x86_64.exe".to_string(),
            browser_download_url: "https://example.com/win".to_string(),
        },
        ReleaseAsset {
            name: "git-tree-linux-x86_64".to_string(),
            browser_download_url: "https://example.com/linux".to_string(),
        },
    ]
}

#[test]
fn plan_update_picks_platform_asset() {
    let linux = platform_asset_name(false);
    assert_eq!(linux, "git-tree-linux-x86_64");
    assert_eq!(platform_asset_name(true), "git-tree-windows-x86_64.exe");
    let r = plan_update("v0.5.0", "Big release\n\nFixes", &assets(), "0.4.0", linux).unwrap().unwrap();
    assert_eq!(r.latest_version, "v0.5.0");
    assert_eq!(r.download_url, "https://example.com/linux");
    assert_eq!(r.release_notes, "Big release · Fixes");
}

#[test]
fn plan_update_not_newer() {
    assert_eq!(plan_update("vv0.4.0", "", &assets(), "0.4.0", "git-tree-linux-x86_64"), Ok(None));
}

#[test]
fn plan_update_missing_asset() {
    let r = plan_update("v1.0.0", "", &assets(), "0.4.0", "git-tree-macos");
    assert_eq!(
        r,
        Err(UpdateError::MissingAsset {
            tag_name: "v1.0.0".to_string(),
            asset_name: "git-tree-macos".to_string()
        })
    );
}

#[test]
fn progress_percentages() {
    assert_eq!(progress_percent(50, 200), Some(25));
    assert_eq!(progress_percent(10, 0), None);
    assert_eq!(progress_percent(300, 100), Some(44));
}
