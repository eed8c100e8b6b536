use git_tree_viz::components::stats::{day_of, day_tally, heat_grid, heat_level, month_label_weeks, peak_day_count, HeatLevel};
use git_tree_viz::parser::{build_commit, CommitNode, DiffStats, RawCommit};

fn at(secs: i64) -> CommitNode {
    let raw = RawCommit {
        hash: "0123456789012345678901234567890123456789".to_string(),
        author_name: Some("Ann".to_string()),
        author_email: Some("ann@example.com".to_string()),
        message: Some("m".to_string()),
        time_secs: secs,
        parent_hashes: vec![],
        deltas: vec![],
        stats: DiffStats::default(),
    };
    build_commit(&raw, &None, &vec![])
}

#[test]
fn days_are_utc_dates() {
    assert_eq!(day_of(0), 0);
    assert_eq!(day_of(86_399), 0);
    assert_eq!(day_of(86_400), 1);
    assert_eq!(day_of(-1), -1);
    assert_eq!(day_of(-86_400), -1);
    assert_eq!(day_of(-86_401), -2);
    // 2024-01-01T12:00:00Z is day 19723.
    assert_eq!(day_of(1_704_110_400), 19_723);
}

#[test]
fn tally_counts_each_day_once() {
    let cs = vec![at(10), at(86_400 * 3), at(20), at(86_400 * 3 + 5), at(30)];
    assert_eq!(day_tally(&cs), vec![(0, 3), (3, 2)]);
    assert_eq!(peak_day_count(&day_tally(&cs)), 3);
    assert_eq!(peak_day_count(&vec![]), 1);
}

#[test]
fn grid_ends_with_the_current_week() {
    // Day 19723 (2024-01-01) is a Monday.
    let today = 19_725; // Wednesday
    let cs = vec![at(19_723 * 86_400), at(19_725 * 86_400 + 1), at(19_725 * 86_400 + 2), at(19_726 * 86_400), at(0)];
    let g = heat_grid(&cs, today);
    assert_eq!(g.len(), 52);
    assert!(g.iter().all(|w| w.len() == 7));
    assert_eq!(g[51], vec![1, 0, 2, 0, 0, 0, 0]);
    assert!(g[..51].iter().all(|w| w.iter().all(|&n| n == 0)));
}

#[test]
fn levels_follow_quarters_of_the_peak() {
    assert_eq!(heat_level(0, 8), HeatLevel::Empty);
    assert_eq!(heat_level(1, 8), HeatLevel::Low);
    assert_eq!(heat_level(2, 8), HeatLevel::Low);
    assert_eq!(heat_level(3, 8), HeatLevel::Medium);
    assert_eq!(heat_level(5, 8), HeatLevel::High);
    assert_eq!(heat_level(6, 8), HeatLevel::High);
    assert_eq!(heat_level(7, 8), HeatLevel::Top);
    assert_eq!(heat_level(8, 8), HeatLevel::Top);
}

#[test]
fn month_names_go_where_the_month_changes() {
    assert_eq!(month_label_weeks(&vec![1, 1, 2, 2, 2, 3, 1]), vec![0, 2, 5, 6]);
    assert_eq!(month_label_weeks(&vec![]), Vec::<usize>::new());
}
