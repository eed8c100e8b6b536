use git_tree_viz::auth::{GithubProfile, GithubRepo, RepoSort};
use git_tree_viz::components::user_repos::{owner_clone_url, updated_label, LoadState, UserReposAction, UserReposEvent, UserReposState};

fn repo(name: &str, stars: u64, private: bool) -> GithubRepo {
    GithubRepo {
        id: stars,
        full_name: format!("ann/{name}"),
        name: name.to_string(),
        description: None,
        private,
        stargazers_count: stars,
        forks_count: 0,
        language: None,
        clone_url: format!("https://github.com/ann/{name}.git"),
        html_url: format!("https://github.com/ann/{name}"),
        updated: None,
        default_branch: "main".to_string(),
    }
}

fn profile() -> GithubProfile {
    GithubProfile {
        login: "ann".to_string(),
        name: None,
        bio: None,
        public_repos: 2,
        followers: 0,
        following: 0,
        avatar_url: String::new(),
    }
}

#[test]
fn token_goes_into_the_clone_url() {
    assert_eq!(owner_clone_url("tok", "https://github.com/a/b.git"), "https://tok@github.com/a/b.git");
    assert_eq!(owner_clone_url("tok", "https://https://h/x"), "https://tok@h/x");
    assert_eq!(owner_clone_url("tok", "git@h:x"), "https://tok@git@h:x");
}

#[test]
fn update_dates_are_cut_to_the_day() {
    assert_eq!(updated_label(Some("2024-05-01T10:00:00Z")), "2024-05-01");
    assert_eq!(updated_label(Some("2024-05-01")), "2024-05-01");
    assert_eq!(updated_label(Some("2024")), "—");
    assert_eq!(updated_label(None), "—");
    // Byte 10 falls inside the two-byte 'é': no boundary there.
    assert_eq!(updated_label(Some("123456789é")), "—");
    assert_eq!(updated_label(Some("12345678é")), "12345678é");
}

#[test]
fn both_answers_decide_the_load_state() {
    let mut s = UserReposState::new();
    assert_eq!(s.handle(UserReposEvent::Start, "tok"), UserReposAction::Fetch);
    assert_eq!(s.load, LoadState::Loading);
    s.handle(UserReposEvent::Fetched { profile: Err("no profile".to_string()), repos: Err("no repos".to_string()) }, "tok");
    assert_eq!(s.load, LoadState::Error("no profile".to_string()));
    s.handle(UserReposEvent::Fetched { profile: Ok(profile()), repos: Err("no repos".to_string()) }, "tok");
    assert_eq!(s.load, LoadState::Error("no repos".to_string()));
    assert!(s.profile.is_none());
    s.handle(UserReposEvent::Fetched { profile: Ok(profile()), repos: Ok(vec![repo("a", 1, false), repo("b", 5, true)]) }, "tok");
    assert_eq!(s.load, LoadState::Loaded);
    assert_eq!(s.profile.as_ref().map(|p| p.login.as_str()), Some("ann"));
    assert_eq!(s.repos.len(), 2);
}

#[test]
fn listing_follows_filter_sort_and_private_switch() {
    let mut s = UserReposState::new();
    s.handle(UserReposEvent::Fetched { profile: Ok(profile()), repos: Ok(vec![repo("alpha", 1, false), repo("beta", 5, true), repo("gamma", 3, false)]) }, "tok");
    let names = |s: &UserReposState| s.displayed().iter().map(|r| r.name.clone()).collect::<Vec<_>>();
    assert_eq!(names(&s), vec!["alpha", "beta", "gamma"]);
    s.handle(UserReposEvent::SortChanged(RepoSort::Stars), "tok");
    assert_eq!(names(&s), vec!["beta", "gamma", "alpha"]);
    s.handle(UserReposEvent::TogglePrivate, "tok");
    assert_eq!(names(&s), vec!["gamma", "alpha"]);
    s.handle(UserReposEvent::FilterChanged("ALP".to_string()), "tok");
    assert_eq!(names(&s), vec!["alpha"]);
}

#[test]
fn one_clone_at_a_time() {
    let mut s = UserReposState::new();
    let act = s.handle(UserReposEvent::CloneRepo { clone_url: "https://github.com/ann/a.git".to_string(), name: "a".to_string() }, "tok");
    assert_eq!(
        act,
        UserReposAction::Clone { url: "https://tok@github.com/ann/a.git".to_string(), loading_message: "cloning a...".to_string() }
    );
    let second = s.handle(UserReposEvent::CloneRepo { clone_url: "https://github.com/ann/b.git".to_string(), name: "b".to_string() }, "tok");
    assert_eq!(second, UserReposAction::Nothing);
    s.handle(UserReposEvent::CloneFailed("auth".to_string()), "tok");
    assert_eq!(s.clone_error.as_deref(), Some("Clone failed: auth"));
    assert!(s.cloning_url.is_none());
    s.handle(UserReposEvent::ClonePanicked, "tok");
    assert_eq!(s.clone_error.as_deref(), Some("Clone task panicked"));
}
