use git_tree_viz::components::diff_viewer::{diff_totals, origin_class, status_class, status_label, Collapsed};
use git_tree_viz::components::right_panel;
use git_tree_viz::components::stats::contributor_stats;
use git_tree_viz::components::tree_canvas::{canvas_hint, commit_matches, drawn_commits, match_count, matching_hashes, navigate};
use git_tree_viz::parser::{build_commit, ChangeStatus, CommitNode, DiffStats, FileChange, RawCommit};

fn commit(hash: &str, name: &str, email: &str, message: &str) -> CommitNode {
    let raw = RawCommit {
        hash: hash.to_string(),
        author_name: Some(name.to_string()),
        author_email: Some(email.to_string()),
        message: Some(message.to_string()),
        time_secs: 0,
        parent_hashes: vec![],
        deltas: vec![],
        stats: DiffStats::default(),
    };
    build_commit(&raw, &None, &vec![])
}

#[test]
fn labels_and_classes() {
    assert_eq!(status_label(&ChangeStatus::Added), "ADDED");
    assert_eq!(status_label(&ChangeStatus::Renamed), "RENAMED");
    assert_eq!(status_class(&ChangeStatus::Deleted), "deleted");
    assert_eq!(right_panel::status_label(&ChangeStatus::Modified), "Modified");
    assert_eq!(right_panel::status_class(&ChangeStatus::Added), "added");
    assert_eq!(origin_class('+'), "add");
    assert_eq!(origin_class('-'), "del");
    assert_eq!(origin_class(' '), "ctx");
}

#[test]
fn totals_sum_files() {
    let f = |a, d| FileChange { path: "p".into(), additions: a, deletions: d, status: ChangeStatus::Modified, lines: vec![] };
    assert_eq!(diff_totals(&vec![f(1, 2), f(3, 4)]), (4, 6));
    assert_eq!(diff_totals(&vec![]), (0, 0));
}

#[test]
fn search_matches_fields_ignoring_case() {
    let c = commit("abcdef0123456789abcdef0123456789abcdef01", "Grace Hopper", "grace@navy.mil", "Fix COBOL bug");
    assert!(commit_matches(&c, ""));
    assert!(commit_matches(&c, "hopper"));
    assert!(commit_matches(&c, "NAVY"));
    assert!(commit_matches(&c, "cobol"));
    assert!(commit_matches(&c, "ABCDEF0"));
    assert!(commit_matches(&c, "6789abcdef01"));
    assert!(!commit_matches(&c, "turing"));
}

#[test]
fn arrows_move_through_matches() {
    let hs: Vec<String> = vec!["a".into(), "b".into(), "c".into()];
    assert_eq!(navigate(&hs, None, true), Some(0));
    assert_eq!(navigate(&hs, None, false), Some(2));
    assert_eq!(navigate(&hs, Some("a"), true), Some(1));
    assert_eq!(navigate(&hs, Some("b"), false), Some(0));
    assert_eq!(navigate(&hs, Some("c"), true), None);
    assert_eq!(navigate(&hs, Some("a"), false), None);
    assert_eq!(navigate(&hs, Some("zz"), true), None);
    assert_eq!(navigate(&vec![], None, true), None);
}

#[test]
fn leaderboard_counts_authors() {
    let h = "0000000000000000000000000000000000000000";
    let commits = vec![
        commit(h, "Ann", "ann@x", "m"),
        commit(h, "Bob", "bob@x", "m"),
        commit(h, "Bobby", "bob@x", "m"),
        commit(h, "Cy", "cy@x", "m"),
        commit(h, "Bob", "bob@x", "m"),
        commit(h, "Cy", "cy@x", "m"),
    ];
    let s = contributor_stats(&commits);
    let got: Vec<(&str, &str, usize)> = s.iter().map(|e| (e.email.as_str(), e.name.as_str(), e.commit_count)).collect();
    assert_eq!(got, vec![("bob@x", "Bob", 3), ("cy@x", "Cy", 2), ("ann@x", "Ann", 1)]);
    assert!(contributor_stats(&vec![]).is_empty());
}

#[test]
fn folding_files_toggles() {
    let f = |p: &str| FileChange { path: p.into(), additions: 0, deletions: 0, status: ChangeStatus::Modified, lines: vec![] };
    let mut c = Collapsed::new();
    assert!(!c.is_collapsed("a"));
    c.toggle("a");
    assert!(c.is_collapsed("a"));
    c.toggle("a");
    assert!(!c.is_collapsed("a"));
    c.collapse_all(&vec![f("a"), f("b")]);
    assert!(c.is_collapsed("a") && c.is_collapsed("b") && !c.is_collapsed("c"));
    c.toggle("b");
    assert!(c.is_collapsed("a") && !c.is_collapsed("b"));
    c.expand_all();
    assert!(!c.is_collapsed("a"));
}

fn merge(hash: &str, message: &str) -> CommitNode {
    let raw = RawCommit {
        hash: hash.to_string(),
        author_name: Some("Ann".to_string()),
        author_email: Some("ann@x".to_string()),
        message: Some(message.to_string()),
        time_secs: 0,
        parent_hashes: vec!["p1".to_string(), "p2".to_string()],
        deltas: vec![],
        stats: DiffStats::default(),
    };
    build_commit(&raw, &None, &vec![])
}

#[test]
fn drawn_commits_and_matches() {
    let a = "aaaaaaaaaaaaaaaaaaaaaaaaaaaaaaaaaaaaaaaa";
    let b = "bbbbbbbbbbbbbbbbbbbbbbbbbbbbbbbbbbbbbbbb";
    let m = "cccccccccccccccccccccccccccccccccccccccc";
    let cs = vec![commit(a, "Ann", "ann@x", "fix parser"), merge(m, "Merge fix"), commit(b, "Bob", "bob@x", "docs")];
    assert_eq!(drawn_commits(&cs, true), vec![0, 1, 2]);
    assert_eq!(drawn_commits(&cs, false), vec![0, 2]);
    assert_eq!(matching_hashes(&cs, true, "FIX"), vec![a.to_string(), m.to_string()]);
    assert_eq!(matching_hashes(&cs, false, "fix"), vec![a.to_string()]);
    assert_eq!(match_count(&cs, true, ""), None);
    assert_eq!(match_count(&cs, true, "fix"), Some(2));
    assert_eq!(match_count(&cs, false, "zzz"), Some(0));
}

#[test]
fn hint_line() {
    assert_eq!(canvas_hint(Some(1), false), "1 match  ·  ← → navigate  ·  ESC deselect");
    assert_eq!(canvas_hint(Some(12), true), "12 matches  ·  ↑ ↓ navigate  ·  ESC deselect");
    assert_eq!(canvas_hint(None, false), "← → navigate  ·  ESC deselect  ·  CTRL+scroll zoom  ·  drag pan");
}
