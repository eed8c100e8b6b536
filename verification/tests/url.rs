use git_tree_viz::url::{clone_folder_name, commit_web_url, inject_token_into_url, to_https};

#[test]
fn ssh_remote_becomes_https() {
    assert_eq!(
        to_https("git@github.com:user/repo.git").as_deref(),
        Some("https://github.com/user/repo")
    );
}

#[test]
fn https_remote_is_trimmed() {
    assert_eq!(
        to_https("https://gitlab.com/group/project.git/").as_deref(),
        Some("https://gitlab.com/group/project")
    );
    assert_eq!(to_https("http://host/a.git.git").as_deref(), Some("https://host/a"));
    assert_eq!(to_https("http://example.com/u/r").as_deref(), Some("https://example.com/u/r"));
}

#[test]
fn ssh_scheme_remote_becomes_https() {
    assert_eq!(to_https("ssh://git@example.com/u/r.git").as_deref(), Some("https://example.com/u/r"));
    assert_eq!(to_https("ssh://example.com/u/r").as_deref(), Some("https://example.com/u/r"));
    // An '@' after the first '/' belongs to the path, not to a user.
    assert_eq!(to_https("ssh://host/a@b").as_deref(), Some("https://host/a@b"));
    assert_eq!(
        commit_web_url("ssh://git@example.com/u/r.git", "abc").as_deref(),
        Some("https://example.com/u/r/commit/abc")
    );
}

#[test]
fn unknown_remote_has_no_web_url() {
    assert_eq!(to_https("/home/me/repo"), None);
    assert_eq!(to_https("git@github.com"), None);
    assert_eq!(to_https(""), None);
}

#[test]
fn commit_url_appends_hash() {
    assert_eq!(
        commit_web_url("git@bitbucket.org:team/app.git", "abc123").as_deref(),
        Some("https://bitbucket.org/team/app/commit/abc123")
    );
    assert_eq!(commit_web_url("ftp://x/y", "abc"), None);
}

#[test]
fn token_goes_after_scheme() {
    assert_eq!(
        inject_token_into_url("https://github.com/u/r.git", "TOKEN"),
        "https://TOKEN@github.com/u/r.git"
    );
    assert_eq!(inject_token_into_url("git@github.com:u/r.git", "TOKEN"), "git@github.com:u/r.git");
}

#[test]
fn clone_folder_is_last_segment() {
    assert_eq!(clone_folder_name("https://github.com/user/repo.git/"), "repo");
    assert_eq!(clone_folder_name("https://github.com/user/repo"), "repo");
    assert_eq!(clone_folder_name("plain"), "plain");
    assert_eq!(clone_folder_name("https://h/x.git.git"), "x");
}
