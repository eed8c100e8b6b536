use git_tree_viz::auth::{AuthToken, DeviceFlowStart};
use git_tree_viz::components::home_screen::{HomeAction, HomeEvent, HomeState, OAuthState, Tab};

fn token() -> AuthToken {
    AuthToken { access_token: "tok".to_string(), scope: "repo".to_string(), username: Some("ann".to_string()) }
}

#[test]
fn empty_path_and_url_are_refused() {
    let mut h = HomeState::new(None);
    assert_eq!(h.handle(HomeEvent::SubmitPath(String::new())), HomeAction::Nothing);
    assert_eq!(h.local_error.as_deref(), Some("Please enter a path."));
    assert_eq!(h.handle(HomeEvent::SubmitRemote(String::new())), HomeAction::Nothing);
    assert_eq!(h.local_error.as_deref(), Some("Please enter a URL."));
    assert_eq!(
        h.handle(HomeEvent::SubmitPath("/repo".to_string())),
        HomeAction::LoadLocal { path: "/repo".to_string() }
    );
    assert!(h.local_error.is_none());
    assert_eq!(
        h.handle(HomeEvent::OpenRecent("/old".to_string())),
        HomeAction::LoadLocal { path: "/old".to_string() }
    );
    h.handle(HomeEvent::LocalFailed("not a repository".to_string()));
    assert_eq!(h.local_error.as_deref(), Some("Error: not a repository"));
    assert_eq!(h.displayed_error(Some("earlier".to_string())).as_deref(), Some("Error: not a repository"));
    let fresh = HomeState::new(None);
    assert_eq!(fresh.displayed_error(Some("earlier".to_string())).as_deref(), Some("earlier"));
}

#[test]
fn cloning_uses_the_token_and_blocks_a_second_clone() {
    let mut h = HomeState::new(Some(token()));
    let act = h.handle(HomeEvent::SubmitRemote("https://github.com/a/b.git".to_string()));
    assert_eq!(
        act,
        HomeAction::Clone { url: "https://tok@github.com/a/b.git".to_string(), name: "https://github.com/a/b.git".to_string() }
    );
    assert!(h.is_cloning);
    assert_eq!(h.cloning_url.as_deref(), Some("https://github.com/a/b.git"));
    let again = h.handle(HomeEvent::CloneRequested { url: "https://x/y".to_string(), name: "y".to_string() });
    assert_eq!(again, HomeAction::Nothing);
    h.handle(HomeEvent::CloneSucceeded);
    assert!(!h.is_cloning);
    assert!(h.cloning_url.is_none());
}

#[test]
fn clone_failure_is_reported_on_its_tab() {
    let mut h = HomeState::new(None);
    h.handle(HomeEvent::SelectTab(Tab::Search));
    h.handle(HomeEvent::CloneRequested { url: "git@host:a/b".to_string(), name: "a/b".to_string() });
    h.handle(HomeEvent::CloneFailed { name: "a/b".to_string(), error: "timeout".to_string() });
    assert_eq!(h.search_error.as_deref(), Some("Clone failed for a/b: timeout"));
    assert!(h.local_error.is_none());
    h.handle(HomeEvent::SelectTab(Tab::Remote));
    h.handle(HomeEvent::SubmitRemote("u".to_string()));
    h.handle(HomeEvent::CloneFailed { name: "u".to_string(), error: "e".to_string() });
    assert_eq!(h.local_error.as_deref(), Some("Clone failed for u: e"));
    h.handle(HomeEvent::ClonePanicked);
    assert_eq!(h.search_error.as_deref(), Some("Clone task panicked"));
}

#[test]
fn blank_searches_are_ignored() {
    let mut h = HomeState::new(None);
    assert_eq!(h.handle(HomeEvent::SubmitSearch("   ".to_string())), HomeAction::Nothing);
    assert!(!h.is_searching);
    let act = h.handle(HomeEvent::SubmitSearch("tetris".to_string()));
    assert_eq!(act, HomeAction::Search { query: "tetris".to_string(), limit: 15 });
    assert!(h.is_searching);
    assert_eq!(h.handle(HomeEvent::SubmitSearch("more".to_string())), HomeAction::Nothing);
    h.handle(HomeEvent::SearchFailed("Rate limited".to_string()));
    assert!(!h.is_searching);
    assert_eq!(h.search_error.as_deref(), Some("Rate limited"));
    h.handle(HomeEvent::SubmitSearch("x".to_string()));
    assert!(h.search_error.is_none());
    h.handle(HomeEvent::SearchDone(vec![]));
    assert!(!h.is_searching);
}

#[test]
fn device_flow_sign_in_and_out() {
    let mut h = HomeState::new(None);
    assert_eq!(h.handle(HomeEvent::SelectTab(Tab::MyRepos)), HomeAction::Nothing);
    assert_eq!(h.tab, Tab::Local);
    assert_eq!(h.handle(HomeEvent::SignIn), HomeAction::RequestCode);
    assert_eq!(h.oauth, OAuthState::RequestingCode);
    assert_eq!(h.handle(HomeEvent::SignIn), HomeAction::Nothing);
    let start = DeviceFlowStart {
        user_code: "ABCD-1234".to_string(),
        verification_uri: "https://github.com/login/device".to_string(),
        device_code: "dev".to_string(),
        interval: 5,
    };
    let act = h.handle(HomeEvent::CodeReceived(start));
    assert_eq!(
        act,
        HomeAction::AwaitUser { verification_uri: "https://github.com/login/device".to_string(), device_code: "dev".to_string(), interval: 5 }
    );
    assert!(matches!(&h.oauth, OAuthState::WaitingForUser { user_code, .. } if user_code == "ABCD-1234"));
    h.handle(HomeEvent::SignedIn(token()));
    assert_eq!(h.oauth, OAuthState::Idle);
    h.handle(HomeEvent::SelectTab(Tab::MyRepos));
    assert_eq!(h.tab, Tab::MyRepos);
    assert_eq!(h.handle(HomeEvent::SignOut), HomeAction::ClearToken);
    assert!(h.token.is_none());
    assert_eq!(h.tab, Tab::Search);
}

#[test]
fn sign_in_errors_can_be_dismissed() {
    let mut h = HomeState::new(None);
    h.handle(HomeEvent::SignIn);
    h.handle(HomeEvent::CodeFailed("Github returned HTTP 500".to_string()));
    assert_eq!(h.oauth, OAuthState::Error("Github returned HTTP 500".to_string()));
    h.handle(HomeEvent::ResetSignIn);
    assert_eq!(h.oauth, OAuthState::Idle);
    h.handle(HomeEvent::SignIn);
    h.handle(HomeEvent::PollFailed("Code expired".to_string()));
    assert_eq!(h.oauth, OAuthState::Error("Code expired".to_string()));
}
