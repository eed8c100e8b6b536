use git_tree_viz::recent::{filter_recents, update_recents, RecentRepo, MAX_RECENTS};

fn repo(path: &str, name: &str, at: &str) -> RecentRepo {
    RecentRepo { path: path.to_string(), name: name.to_string(), opened_at: at.to_string() }
}

#[test]
fn newest_first_without_duplicates() {
    let list = vec![repo("/a", "a", "1"), repo("/b", "b", "2"), repo("/c", "c", "3")];
    let r = update_recents(&list, "/b", "b2", "9");
    assert_eq!(r, vec![repo("/b", "b2", "9"), repo("/a", "a", "1"), repo("/c", "c", "3")]);
}

#[test]
fn list_is_capped() {
    let list: Vec<RecentRepo> = (0..7).map(|i| repo(&format!("/{i}"), "x", "t")).collect();
    let r = update_recents(&list, "/new", "n", "now");
    assert_eq!(r.len(), MAX_RECENTS);
    assert_eq!(r[0], repo("/new", "n", "now"));
    assert_eq!(r[4], repo("/3", "x", "t"));
}

#[test]
fn opening_twice_is_opening_once() {
    let list = vec![repo("/a", "a", "1"), repo("/b", "b", "2")];
    let once = update_recents(&list, "/c", "c", "5");
    let twice = update_recents(&once, "/c", "c", "5");
    assert_eq!(once, twice);
}

#[test]
fn filter_ignores_case() {
    let list = vec![repo("/home/Me/Alpha", "Alpha", "1"), repo("/srv/beta", "beta", "2")];
    assert_eq!(filter_recents(&list, "ALPHA"), vec![list[0].clone()]);
    assert_eq!(filter_recents(&list, "srv"), vec![list[1].clone()]);
    assert_eq!(filter_recents(&list, ""), list);
    assert_eq!(filter_recents(&list, "zzz"), vec![]);
}
