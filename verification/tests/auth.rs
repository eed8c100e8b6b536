use git_tree_viz::auth::{
    displayed_repos, initial_wait, is_html_answer, next_page, poll_step, GithubRepo, PollStep, RepoSort,
};

#[test]
fn wait_is_at_least_five_seconds() {
    assert_eq!(initial_wait(0), 5);
    assert_eq!(initial_wait(5), 5);
    assert_eq!(initial_wait(8), 8);
}

#[test]
fn html_answers_are_detected() {
    assert!(is_html_answer("  \n<!DOCTYPE html>"));
    assert!(is_html_answer("<html>"));
    assert!(!is_html_answer("{\"error\":\"x\"}"));
    assert!(!is_html_answer("   "));
    assert!(!is_html_answer(""));
}

#[test]
fn poll_decisions() {
    assert_eq!(poll_step(5, Some("authorization_pending"), None, None), PollStep::Retry { wait_secs: 5 });
    assert_eq!(poll_step(5, Some("slow_down"), None, None), PollStep::Retry { wait_secs: 10 });
    assert_eq!(poll_step(5, Some("expired_token"), None, None), PollStep::CodeExpired);
    assert_eq!(
        poll_step(5, Some("access_denied"), None, None),
        PollStep::OAuthError { error: "access_denied".to_string() }
    );
    assert_eq!(
        poll_step(5, None, Some("tok"), Some("repo")),
        PollStep::Authorized { access_token: "tok".to_string(), scope: "repo".to_string() }
    );
    assert_eq!(
        poll_step(5, None, Some("tok"), None),
        PollStep::Authorized { access_token: "tok".to_string(), scope: String::new() }
    );
    assert_eq!(poll_step(7, None, None, None), PollStep::Retry { wait_secs: 7 });
}

#[test]
fn paging_stops_at_short_page() {
    assert_eq!(next_page(1, 100), Some(2));
    assert_eq!(next_page(3, 99), None);
    assert_eq!(next_page(1, 0), None);
}

fn repo(name: &str, desc: Option<&str>, private: bool, stars: u64) -> GithubRepo {
    GithubRepo {
        id: stars,
        full_name: format!("me/{name}"),
        name: name.to_string(),
        description: desc.map(|d| d.to_string()),
        private,
        stargazers_count: stars,
        forks_count: 0,
        language: None,
        clone_url: format!("https://github.com/me/{name}.git"),
        html_url: format!("https://github.com/me/{name}"),
        updated: None,
        default_branch: "main".to_string(),
    }
}

fn names(v: &[GithubRepo]) -> Vec<&str> {
    v.iter().map(|r| r.name.as_str()).collect()
}

#[test]
fn repo_list_filters_and_sorts() {
    let repos = vec![
        repo("zeta", Some("A Parser"), false, 3),
        repo("alpha", None, true, 10),
        repo("Beta", Some("tools"), false, 3),
        repo("gamma", Some("parser kit"), false, 7),
    ];
    assert_eq!(names(&displayed_repos(&repos, "", true, RepoSort::Updated)), vec!["zeta", "alpha", "Beta", "gamma"]);
    assert_eq!(names(&displayed_repos(&repos, "", false, RepoSort::Updated)), vec!["zeta", "Beta", "gamma"]);
    assert_eq!(names(&displayed_repos(&repos, "PARSER", true, RepoSort::Updated)), vec!["zeta", "gamma"]);
    assert_eq!(names(&displayed_repos(&repos, "", true, RepoSort::Stars)), vec!["alpha", "gamma", "zeta", "Beta"]);
    assert_eq!(names(&displayed_repos(&repos, "", true, RepoSort::Name)), vec!["Beta", "alpha", "gamma", "zeta"]);
}
