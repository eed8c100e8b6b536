use git_tree_viz::app::{AppAction, AppEvent, AppState, Screen};
use git_tree_viz::components::tree_canvas::{BranchStyle, TreeDirection};
use git_tree_viz::parser::{build_commit, ChangeStatus, CommitNode, DiffLine, DiffStats, FileChange, RawCommit, RepoTree};

fn commit(hash: &str) -> CommitNode {
    let raw = RawCommit {
        hash: hash.to_string(),
        author_name: Some("Ann".to_string()),
        author_email: Some("ann@example.com".to_string()),
        message: Some("msg".to_string()),
        time_secs: 0,
        parent_hashes: vec![],
        deltas: vec![],
        stats: DiffStats::default(),
    };
    build_commit(&raw, &None, &vec![])
}

fn tree() -> RepoTree {
    RepoTree {
        commits: vec![],
        branches: vec![],
        main_branch: vec![],
        repo_name: "demo".to_string(),
        remote_url: None,
        total_contributors: 0,
    }
}

fn one_file() -> Vec<FileChange> {
    vec![FileChange {
        path: "src/lib.rs".to_string(),
        additions: 1,
        deletions: 0,
        status: ChangeStatus::Added,
        lines: vec![DiffLine { origin: '+', content: "fn main() {}".to_string() }],
    }]
}

const H1: &str = "1111111111111111111111111111111111111111";
const H2: &str = "2222222222222222222222222222222222222222";

#[test]
fn loading_then_loaded_opens_the_tree() {
    let mut s = AppState::new();
    assert!(matches!(s.screen, Screen::Home));
    s.handle(AppEvent::Loading("reading commits...".to_string()));
    assert!(matches!(&s.screen, Screen::Loading(m) if m == "reading commits..."));
    s.handle(AppEvent::SearchChanged("fix".to_string()));
    assert_eq!(s.search_query, "fix");
    s.handle(AppEvent::Loaded(tree()));
    assert!(matches!(s.screen, Screen::Tree));
    assert_eq!(s.search_query, "");
    assert!(s.selected.is_none());
    assert_eq!(s.tree.as_ref().map(|t| t.repo_name.as_str()), Some("demo"));
}

#[test]
fn failed_load_goes_home_with_the_error() {
    let mut s = AppState::new();
    s.handle(AppEvent::LoadFailed("Clone failed".to_string()));
    assert!(matches!(s.screen, Screen::Home));
    assert_eq!(s.clone_error.as_deref(), Some("Clone failed"));
    s.handle(AppEvent::Loading("cloning x...".to_string()));
    assert!(s.clone_error.is_none());
}

#[test]
fn navigation_between_screens() {
    let mut s = AppState::new();
    s.handle(AppEvent::Loaded(tree()));
    s.handle(AppEvent::OpenSettings);
    assert!(matches!(s.screen, Screen::Settings));
    s.handle(AppEvent::BackToTree);
    assert!(matches!(s.screen, Screen::Tree));
    s.handle(AppEvent::OpenStats);
    assert!(matches!(s.screen, Screen::Stats));
    s.handle(AppEvent::ViewDiff(commit(H1)));
    assert!(matches!(&s.screen, Screen::Diff(c) if c.hash == H1));
    s.handle(AppEvent::SearchChanged("x".to_string()));
    s.handle(AppEvent::GoHome);
    assert!(matches!(s.screen, Screen::Home));
    assert_eq!(s.search_query, "");
}

#[test]
fn selecting_an_unloaded_commit_asks_for_its_diff() {
    let mut s = AppState::new();
    let act = s.handle(AppEvent::Select(commit(H1)));
    assert_eq!(act, AppAction::LoadDiff(H1.to_string()));
    assert!(s.diff_loading);
    assert_eq!(s.selected.as_ref().map(|c| c.hash.as_str()), Some(H1));
    s.handle(AppEvent::DiffLoaded { hash: H1.to_string(), files: one_file(), stats: DiffStats { files_changed: 1, insertions: 1, deletions: 0 } });
    assert!(!s.diff_loading);
    let sel = s.selected.as_ref().unwrap();
    assert_eq!(sel.files_changed, one_file());
    assert_eq!(sel.stats.insertions, 1);
    assert_eq!(s.diff_cache.len(), 1);
}

#[test]
fn a_cached_diff_is_shown_at_once() {
    let mut s = AppState::new();
    s.handle(AppEvent::DiffLoaded { hash: H1.to_string(), files: one_file(), stats: DiffStats { files_changed: 1, insertions: 1, deletions: 0 } });
    let act = s.handle(AppEvent::Select(commit(H1)));
    assert_eq!(act, AppAction::Nothing);
    assert!(!s.diff_loading);
    assert_eq!(s.selected.as_ref().unwrap().files_changed, one_file());
}

#[test]
fn a_diff_for_another_commit_is_only_stored() {
    let mut s = AppState::new();
    s.handle(AppEvent::Select(commit(H2)));
    s.handle(AppEvent::DiffLoaded { hash: H1.to_string(), files: one_file(), stats: DiffStats::default() });
    assert!(s.selected.as_ref().unwrap().files_changed.is_empty());
    assert_eq!(s.diff_cache.len(), 1);
    // Storing the same commit again replaces its entry.
    s.handle(AppEvent::DiffLoaded { hash: H1.to_string(), files: vec![], stats: DiffStats::default() });
    assert_eq!(s.diff_cache.len(), 1);
    assert!(s.diff_cache[0].files.is_empty());
    s.handle(AppEvent::Deselect);
    assert!(s.selected.is_none());
    s.handle(AppEvent::DiffFailed);
    assert!(!s.diff_loading);
}

#[test]
fn display_settings_follow_their_events() {
    let mut s = AppState::new();
    assert_eq!(s.theme().name, "Terminal");
    assert!(s.left_open && s.right_open);
    s.handle(AppEvent::ToggleLeftPanel);
    assert!(!s.left_open && s.right_open);
    s.handle(AppEvent::ToggleRightPanel);
    s.handle(AppEvent::ToggleLeftPanel);
    assert!(s.left_open && !s.right_open);
    s.handle(AppEvent::ThemeChanged("Nord".to_string()));
    assert_eq!(s.theme().bg, "#2E3440");
    s.handle(AppEvent::ThemeChanged("No such theme".to_string()));
    assert_eq!(s.theme().name, "Terminal");
    s.handle(AppEvent::FontSizeChanged(16));
    s.handle(AppEvent::ShowMergesChanged(false));
    s.handle(AppEvent::CrtOverlayChanged(true));
    s.handle(AppEvent::DirectionChanged(TreeDirection::Vertical));
    s.handle(AppEvent::BranchStyleChanged(BranchStyle::Geometric));
    assert_eq!(s.font_size, 16);
    assert!(!s.show_merges && s.crt_overlay);
    assert_eq!(s.tree_direction, TreeDirection::Vertical);
    assert_eq!(s.branch_style, BranchStyle::Geometric);
    assert!(matches!(s.screen, Screen::Home));
}
