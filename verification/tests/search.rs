use git_tree_viz::search::{classify_failure, search_url, SearchFailure};

#[test]
fn empty_query_sends_nothing() {
    assert_eq!(search_url("", 10), None);
}

#[test]
fn query_is_percent_encoded() {
    assert_eq!(
        search_url("rust async", 10).unwrap(),
        "https://api.github.com/search/repositories?q=rust%20async&sort=stars&order=desc&per_page=10"
    );
    assert_eq!(
        search_url("a-b_c.d~e/é", 5).unwrap(),
        "https://api.github.com/search/repositories?q=a-b_c.d~e%2F%C3%A9&sort=stars&order=desc&per_page=5"
    );
}

#[test]
fn page_size_is_capped_at_thirty() {
    assert!(search_url("x", 200).unwrap().ends_with("per_page=30"));
    assert!(search_url("x", 30).unwrap().ends_with("per_page=30"));
    assert!(search_url("x", 0).unwrap().ends_with("per_page=0"));
}

#[test]
fn failure_statuses() {
    assert_eq!(classify_failure(403), SearchFailure::RateLimited);
    assert_eq!(classify_failure(429), SearchFailure::RateLimited);
    assert_eq!(classify_failure(500), SearchFailure::ApiError);
    assert_eq!(classify_failure(404), SearchFailure::ApiError);
}
