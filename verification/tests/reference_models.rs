//! The library's results on generated inputs, checked against direct
//! computations with the standard library.
use chrono::{Datelike, Duration, TimeZone, Utc};
use git_tree_viz::auth::{displayed_repos, GithubRepo, RepoSort};
use git_tree_viz::components::stats::{contributor_stats, day_tally, heat_grid};
use git_tree_viz::components::tree_canvas::{commit_matches, drawn_commits, matching_hashes, navigate};
use git_tree_viz::parser::{
    build_branch_lines, build_commit, collect_file_changes, BranchDirection, ChangeStatus, CommitNode, DeltaKind,
    DiffLine, DiffStats, FileChange, RawCommit, RawDelta, RawLine, RawPath,
};
use git_tree_viz::recent::{filter_recents, update_recents, RecentRepo};
use std::collections::HashMap;

/// A small deterministic generator.
struct Gen(u64);

impl Gen {
    fn next(&mut self) -> u64 {
        self.0 = self.0.wrapping_mul(6364136223846793005).wrapping_add(1442695040888963407);
        self.0 >> 33
    }
    fn below(&mut self, n: u64) -> u64 {
        self.next() % n
    }
    fn pick<'a, T>(&mut self, xs: &'a [T]) -> &'a T {
        &xs[self.below(xs.len() as u64) as usize]
    }
}

// ── Diff lines ──────────────────────────────────────────────────────────────

fn expected_changes(deltas: &[RawDelta]) -> Vec<FileChange> {
    let mut files = Vec::new();
    let mut total = 0usize;
    for d in deltas {
        let path = match (&d.new_path, &d.old_path) {
            (RawPath::Text(p), _) => p.clone(),
            (RawPath::NotUtf8, _) => "unknown".to_string(),
            (RawPath::Absent, RawPath::Text(p)) => p.clone(),
            (RawPath::Absent, _) => "unknown".to_string(),
        };
        let status = match d.kind {
            DeltaKind::Added => ChangeStatus::Added,
            DeltaKind::Deleted => ChangeStatus::Deleted,
            DeltaKind::Renamed => ChangeStatus::Renamed,
            _ => ChangeStatus::Modified,
        };
        let mut lines = Vec::new();
        let (mut adds, mut dels) = (0usize, 0usize);
        if total < 300 {
            if let Some(hunks) = &d.hunks {
                'outer: for h in hunks {
                    for l in h {
                        match l.origin {
                            '+' => adds += 1,
                            '-' => dels += 1,
                            _ => {}
                        }
                        if matches!(l.origin, '+' | '-' | ' ') {
                            if lines.len() < 80 && total < 300 {
                                let content = std::str::from_utf8(&l.content)
                                    .unwrap_or("")
                                    .trim_end_matches('\n')
                                    .trim_end_matches('\r')
                                    .to_string();
                                lines.push(DiffLine { origin: l.origin, content });
                                total += 1;
                            } else {
                                break 'outer;
                            }
                        }
                    }
                }
            }
        }
        files.push(FileChange { path, additions: adds, deletions: dels, status, lines });
    }
    files
}

fn gen_line(g: &mut Gen) -> RawLine {
    let origin = *g.pick(&['+', '-', ' ', '@', '=', '>']);
    let content: Vec<u8> = match g.below(6) {
        0 => b"plain".to_vec(),
        1 => b"ends\n".to_vec(),
        2 => b"crlf\r\n".to_vec(),
        3 => b"many\r\r\n\n".to_vec(),
        4 => vec![0xff, b'x', b'\n'],
        _ => "é\n".as_bytes().to_vec(),
    };
    RawLine { origin, content }
}

fn gen_path(g: &mut Gen) -> RawPath {
    match g.below(3) {
        0 => RawPath::Absent,
        1 => RawPath::NotUtf8,
        _ => RawPath::Text(format!("f{}.rs", g.below(100))),
    }
}

#[test]
fn diff_lines_match_direct_scan() {
    let kinds = [
        DeltaKind::Unmodified,
        DeltaKind::Added,
        DeltaKind::Deleted,
        DeltaKind::Modified,
        DeltaKind::Renamed,
        DeltaKind::Copied,
        DeltaKind::Typechange,
    ];
    let mut g = Gen(7);
    for _ in 0..300 {
        let n = g.below(8) as usize;
        let deltas: Vec<RawDelta> = (0..n)
            .map(|_| RawDelta {
                new_path: gen_path(&mut g),
                old_path: gen_path(&mut g),
                kind: *g.pick(&kinds),
                hunks: if g.below(5) == 0 {
                    None
                } else {
                    Some((0..g.below(4)).map(|_| (0..g.below(70)).map(|_| gen_line(&mut g)).collect()).collect())
                },
            })
            .collect();
        assert_eq!(collect_file_changes(&deltas), expected_changes(&deltas));
    }
}

// ── Commits ─────────────────────────────────────────────────────────────────

fn gen_commits(g: &mut Gen, n: usize) -> Vec<CommitNode> {
    let names = ["Ann", "Bob", "Cy", "Dee"];
    (0..n)
        .map(|i| {
            let who = g.below(4) as usize;
            let parents = (0..g.below(3)).map(|k| format!("{:040}", k)).collect();
            let raw = RawCommit {
                hash: format!("{:07x}{:033}", g.below(1 << 24), i),
                author_name: Some(names[who].to_string()),
                author_email: Some(format!("{}@X.org", names[who].to_lowercase())),
                message: Some(format!("{} change {}", *g.pick(&["Fix", "Add", "Merge"]), i)),
                time_secs: 1_700_000_000 + (g.below(400) as i64 - 200) * 86_400 + g.below(86_400) as i64,
                parent_hashes: parents,
                deltas: vec![],
                stats: DiffStats::default(),
            };
            build_commit(&raw, &None, &vec![])
        })
        .collect()
}

#[test]
fn branch_lines_match_direct_construction() {
    let mut g = Gen(11);
    for _ in 0..100 {
        let n = g.below(12) as usize;
        let cs = gen_commits(&mut g, n);
        let mut expected: Vec<(String, Vec<String>, String, BranchDirection, String, Option<String>)> = Vec::new();
        if !cs.is_empty() {
            let main: Vec<String> = cs.iter().filter(|c| c.parent_hashes.len() <= 1).map(|c| c.hash.clone()).collect();
            if !main.is_empty() {
                expected.push(("main".into(), main, "#9B5DE5".into(), BranchDirection::Up, String::new(), None));
            }
            let mut up = true;
            for c in cs.iter().filter(|c| c.is_merge) {
                let dir = if up { BranchDirection::Up } else { BranchDirection::Down };
                up = !up;
                expected.push((
                    format!("branch-{}", c.short_hash),
                    vec![c.hash.clone()],
                    c.color.clone(),
                    dir,
                    c.parent_hashes.first().cloned().unwrap_or_default(),
                    Some(c.hash.clone()),
                ));
            }
        }
        let got: Vec<_> = build_branch_lines(&cs)
            .into_iter()
            .map(|b| (b.name, b.commits, b.color, b.direction, b.parent_hash, b.merge_hash))
            .collect();
        assert_eq!(got, expected);
    }
}

#[test]
fn leaderboard_matches_direct_count() {
    let mut g = Gen(13);
    for _ in 0..100 {
        let n = g.below(20) as usize;
        let cs = gen_commits(&mut g, n);
        let mut order: Vec<String> = Vec::new();
        let mut map: HashMap<String, (String, String, usize)> = HashMap::new();
        for c in &cs {
            let e = map.entry(c.author_email.clone()).or_insert_with(|| {
                order.push(c.author_email.clone());
                (c.author_name.clone(), c.color.clone(), 0)
            });
            e.2 += 1;
        }
        let mut expected: Vec<(String, String, String, usize)> =
            order.iter().map(|k| (k.clone(), map[k].0.clone(), map[k].1.clone(), map[k].2)).collect();
        expected.sort_by_key(|e| std::cmp::Reverse(e.3));
        let got: Vec<_> = contributor_stats(&cs).into_iter().map(|s| (s.email, s.name, s.color, s.commit_count)).collect();
        assert_eq!(got, expected);
    }
}

#[test]
fn heatmap_matches_calendar_dates() {
    let mut g = Gen(17);
    for _ in 0..40 {
        let n = g.below(30) as usize;
        let cs = gen_commits(&mut g, n);
        let mut day_counts: HashMap<String, usize> = HashMap::new();
        for c in &cs {
            let key = Utc.timestamp_opt(c.timestamp, 0).unwrap().format("%Y-%m-%d").to_string();
            *day_counts.entry(key).or_insert(0) += 1;
        }
        assert_eq!(day_tally(&cs).len(), day_counts.len());
        let today_secs = 1_700_000_000 + (g.below(200) as i64 - 100) * 86_400;
        let today = Utc.timestamp_opt(today_secs, 0).unwrap().date_naive();
        let last_monday = today - Duration::days(today.weekday().num_days_from_monday() as i64);
        let first_monday = last_monday - Duration::weeks(51);
        let grid = heat_grid(&cs, today_secs.div_euclid(86_400));
        for w in 0..52 {
            for d in 0..7 {
                let date = first_monday + Duration::weeks(w as i64) + Duration::days(d as i64);
                let key = date.format("%Y-%m-%d").to_string();
                let count = if date <= today { *day_counts.get(&key).unwrap_or(&0) } else { 0 };
                assert_eq!(grid[w][d], count);
            }
        }
    }
}

#[test]
fn drawn_and_matching_commits_match_filters() {
    let mut g = Gen(19);
    for _ in 0..60 {
        let n = g.below(15) as usize;
        let cs = gen_commits(&mut g, n);
        let show = g.below(2) == 0;
        let q = *g.pick(&["", "fix", "ANN", "@x.ORG", "merge", "zzz"]);
        let drawn: Vec<usize> = (0..cs.len()).filter(|&i| show || !cs[i].is_merge).collect();
        assert_eq!(drawn_commits(&cs, show), drawn);
        let matching: Vec<String> =
            drawn.iter().map(|&i| &cs[i]).filter(|c| commit_matches(c, q)).map(|c| c.hash.clone()).collect();
        assert_eq!(matching_hashes(&cs, show, q), matching);
        for fwd in [true, false] {
            for sel in [None, matching.first().cloned(), matching.last().cloned(), Some("nope".to_string())] {
                let expected = match &sel {
                    None => {
                        if matching.is_empty() {
                            None
                        } else if fwd {
                            Some(0)
                        } else {
                            Some(matching.len() - 1)
                        }
                    }
                    Some(h) => matching.iter().position(|m| m == h).and_then(|i| {
                        if fwd {
                            (i + 1 < matching.len()).then_some(i + 1)
                        } else {
                            i.checked_sub(1)
                        }
                    }),
                };
                assert_eq!(navigate(&matching, sel.as_deref(), fwd), expected);
            }
        }
    }
}

// ── Lists ───────────────────────────────────────────────────────────────────

#[test]
fn repository_list_matches_filter_and_sorts() {
    let mut g = Gen(23);
    let names = ["alpha", "Beta", "gamma", "ALPHA2", "delta", "Zed", "éclair"];
    for _ in 0..100 {
        let repos: Vec<GithubRepo> = (0..g.below(10))
            .map(|i| GithubRepo {
                id: i,
                full_name: String::new(),
                name: g.pick(&names).to_string(),
                description: if g.below(2) == 0 { None } else { Some(g.pick(&["A tool", "alpha helper", ""]).to_string()) },
                private: g.below(2) == 0,
                stargazers_count: g.below(5),
                forks_count: 0,
                language: None,
                clone_url: String::new(),
                html_url: String::new(),
                updated: None,
                default_branch: String::new(),
            })
            .collect();
        let q = *g.pick(&["", "alpha", "TOOL", "é", "x"]);
        let show_private = g.below(2) == 0;
        let ql = q.to_lowercase();
        let mut expected: Vec<GithubRepo> = repos
            .iter()
            .filter(|r| {
                (show_private || !r.private)
                    && (ql.is_empty()
                        || r.name.to_lowercase().contains(&ql)
                        || r.description.as_deref().unwrap_or("").to_lowercase().contains(&ql))
            })
            .cloned()
            .collect();
        assert_eq!(displayed_repos(&repos, q, show_private, RepoSort::Updated), expected);
        let mut by_stars = expected.clone();
        by_stars.sort_by_key(|b| std::cmp::Reverse(b.stargazers_count));
        assert_eq!(displayed_repos(&repos, q, show_private, RepoSort::Stars), by_stars);
        expected.sort_by(|a, b| a.name.cmp(&b.name));
        assert_eq!(displayed_repos(&repos, q, show_private, RepoSort::Name), expected);
    }
}

#[test]
fn recent_list_matches_retain_insert_truncate() {
    let mut g = Gen(29);
    for _ in 0..200 {
        let recents: Vec<RecentRepo> = (0..g.below(8))
            .map(|i| RecentRepo {
                path: format!("/r/{}", g.below(6)),
                name: format!("Repo{}", i),
                opened_at: "2024-01-01 00:00".to_string(),
            })
            .collect();
        let path = format!("/r/{}", g.below(6));
        let mut expected = recents.clone();
        expected.retain(|r| r.path != path);
        expected.insert(0, RecentRepo { path: path.clone(), name: "New".into(), opened_at: "2024-02-02 10:00".into() });
        expected.truncate(5);
        assert_eq!(update_recents(&recents, &path, "New", "2024-02-02 10:00"), expected);
        let q = *g.pick(&["", "repo1", "/R/3", "x"]);
        let ql = q.to_lowercase();
        let filtered: Vec<RecentRepo> = recents
            .iter()
            .filter(|r| ql.is_empty() || r.name.to_lowercase().contains(&ql) || r.path.to_lowercase().contains(&ql))
            .cloned()
            .collect();
        assert_eq!(filter_recents(&recents, q), filtered);
    }
}
