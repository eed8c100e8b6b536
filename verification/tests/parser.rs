use git_tree_viz::parser::{
    assemble_tree, build_branch_lines, build_commit, collect_file_changes, first_line_of, tags_for,
    BranchDirection, ChangeStatus, CommitNode, DeltaKind, DiffLine, DiffStats, RawCommit, RawDelta,
    RawLine, RawPath, RawRepo, TagRef,
};

fn line(origin: char, text: &str) -> RawLine {
    RawLine { origin, content: text.as_bytes().to_vec() }
}

fn delta(path: &str, kind: DeltaKind, hunks: Vec<Vec<RawLine>>) -> RawDelta {
    RawDelta {
        new_path: RawPath::Text(path.to_string()),
        old_path: RawPath::Absent,
        kind,
        hunks: Some(hunks),
    }
}

fn raw_commit(hash: &str, parents: &[&str], email: &str) -> RawCommit {
    RawCommit {
        hash: hash.to_string(),
        author_name: Some("Ada".to_string()),
        author_email: Some(email.to_string()),
        message: Some("Subject line\r\n\nBody text".to_string()),
        time_secs: 1_700_000_000,
        parent_hashes: parents.iter().map(|p| p.to_string()).collect(),
        deltas: vec![],
        stats: DiffStats { files_changed: 1, insertions: 2, deletions: 3 },
    }
}

const H1: &str = "1111111aaaaaaaaaaaaaaaaaaaaaaaaaaaaaaaaa";
const H2: &str = "2222222bbbbbbbbbbbbbbbbbbbbbbbbbbbbbbbbb";
const H3: &str = "3333333ccccccccccccccccccccccccccccccccc";
const H4: &str = "4444444ddddddddddddddddddddddddddddddddd";

#[test]
fn diff_lines_are_counted_and_cleaned() {
    let d = delta(
        "src/lib.rs",
        DeltaKind::Modified,
        vec![vec![line('@', "@@ hunk"), line('+', "added\n"), line('-', "removed\r\n"), line(' ', "ctx")]],
    );
    let fc = collect_file_changes(&vec![d]);
    assert_eq!(fc.len(), 1);
    assert_eq!(fc[0].path, "src/lib.rs");
    assert_eq!(fc[0].additions, 1);
    assert_eq!(fc[0].deletions, 1);
    assert_eq!(fc[0].status, ChangeStatus::Modified);
    assert_eq!(
        fc[0].lines,
        vec![
            DiffLine { origin: '+', content: "added".to_string() },
            DiffLine { origin: '-', content: "removed".to_string() },
            DiffLine { origin: ' ', content: "ctx".to_string() },
        ]
    );
}

#[test]
fn file_cap_stops_reading() {
    let many: Vec<RawLine> = (0..100).map(|_| line('+', "x")).collect();
    let fc = collect_file_changes(&vec![delta("a", DeltaKind::Added, vec![many])]);
    assert_eq!(fc[0].lines.len(), 80);
    // The 81st line ends the read and is still counted.
    assert_eq!(fc[0].additions, 81);
    assert_eq!(fc[0].status, ChangeStatus::Added);
}

#[test]
fn commit_cap_spans_files() {
    let ds: Vec<RawDelta> = (0..5)
        .map(|i| delta(&format!("f{i}"), DeltaKind::Modified, vec![(0..70).map(|_| line(' ', "c")).collect()]))
        .collect();
    let fc = collect_file_changes(&ds);
    let kept: Vec<usize> = fc.iter().map(|f| f.lines.len()).collect();
    assert_eq!(kept, vec![70, 70, 70, 70, 20]);
    let more = delta("g", DeltaKind::Deleted, vec![vec![line('-', "gone")]]);
    let mut ds2 = ds.clone();
    ds2.push(more);
    let fc2 = collect_file_changes(&ds2);
    assert_eq!(fc2[5].lines.len(), 0);
    assert_eq!(fc2[5].deletions, 0);
    assert_eq!(fc2[5].status, ChangeStatus::Deleted);
}

#[test]
fn paths_and_statuses() {
    let d = RawDelta { new_path: RawPath::Absent, old_path: RawPath::Text("old.txt".into()), kind: DeltaKind::Renamed, hunks: None };
    let e = RawDelta { new_path: RawPath::NotUtf8, old_path: RawPath::Text("x".into()), kind: DeltaKind::Copied, hunks: None };
    let fc = collect_file_changes(&vec![d, e]);
    assert_eq!(fc[0].path, "old.txt");
    assert_eq!(fc[0].status, ChangeStatus::Renamed);
    assert_eq!(fc[1].path, "unknown");
    assert_eq!(fc[1].status, ChangeStatus::Modified);
}

#[test]
fn invalid_utf8_line_is_empty() {
    let d = delta("b", DeltaKind::Modified, vec![vec![RawLine { origin: '+', content: vec![0xff, 0xfe] }]]);
    let fc = collect_file_changes(&vec![d]);
    assert_eq!(fc[0].lines[0].content, "");
}

#[test]
fn first_lines() {
    assert_eq!(first_line_of("one\ntwo"), "one");
    assert_eq!(first_line_of("one\r\ntwo"), "one");
    assert_eq!(first_line_of(""), "");
    assert_eq!(first_line_of("\nx"), "");
    assert_eq!(first_line_of("solo"), "solo");
}

#[test]
fn tags_are_trimmed_and_grouped() {
    let tags = vec![
        TagRef { target: H1.to_string(), name: b"refs/tags/v1.0".to_vec() },
        TagRef { target: H2.to_string(), name: b"refs/tags/other".to_vec() },
        TagRef { target: H1.to_string(), name: b"refs/tags/refs/tags/latest".to_vec() },
    ];
    assert_eq!(tags_for(&tags, H1), vec!["v1.0".to_string(), "latest".to_string()]);
    assert_eq!(tags_for(&tags, H3), Vec::<String>::new());
}

#[test]
fn commit_node_fields() {
    let tags = vec![TagRef { target: H2.to_string(), name: b"refs/tags/v2".to_vec() }];
    let raw = raw_commit(H2, &[H1, H3], "ada@example.com");
    let c = build_commit(&raw, &Some(H2.to_string()), &tags);
    assert_eq!(c.hash, H2);
    assert_eq!(c.short_hash, "2222222");
    assert_eq!(c.message, "Subject line");
    assert_eq!(c.full_message, "Subject line\r\n\nBody text");
    assert_eq!(c.author_name, "Ada");
    assert_eq!(c.timestamp, 1_700_000_000);
    assert!(c.is_merge);
    assert!(c.is_head);
    assert_eq!(c.tags, vec!["v2".to_string()]);
    assert_eq!(c.color, git_tree_viz::theme::contributor_color("ada@example.com"));
    assert_eq!(c.stats, DiffStats { files_changed: 1, insertions: 2, deletions: 3 });
    assert_eq!(c.branch_name, None);

    let mut anon = raw_commit(H1, &[], "");
    anon.author_name = None;
    anon.author_email = None;
    anon.message = None;
    anon.time_secs = i64::MAX;
    let a = build_commit(&anon, &None, &tags);
    assert_eq!(a.author_name, "Unknown");
    assert_eq!(a.author_email, "");
    assert_eq!(a.message, "");
    assert_eq!(a.timestamp, 0);
    assert!(!a.is_merge);
    assert!(!a.is_head);
}

fn node(hash: &str, parents: &[&str], color: &str) -> CommitNode {
    let raw = raw_commit(hash, parents, "x@y");
    let mut c = build_commit(&raw, &None, &vec![]);
    c.color = color.to_string();
    c
}

#[test]
fn branch_lines_alternate() {
    let commits = vec![
        node(H1, &[], "#111111"),
        node(H2, &[H1], "#222222"),
        node(H3, &[H2, H1], "#333333"),
        node(H4, &[H3, H2], "#444444"),
    ];
    let lines = build_branch_lines(&commits);
    assert_eq!(lines.len(), 3);
    assert_eq!(lines[0].name, "main");
    assert_eq!(lines[0].commits, vec![H1.to_string(), H2.to_string()]);
    assert_eq!(lines[0].color, "#9B5DE5");
    assert_eq!(lines[0].direction, BranchDirection::Up);
    assert_eq!(lines[0].merge_hash, None);
    assert_eq!(lines[1].name, "branch-3333333");
    assert_eq!(lines[1].direction, BranchDirection::Up);
    assert_eq!(lines[1].parent_hash, H2);
    assert_eq!(lines[1].merge_hash, Some(H3.to_string()));
    assert_eq!(lines[1].color, "#333333");
    assert_eq!(lines[2].direction, BranchDirection::Down);
    assert_eq!(lines[2].commits, vec![H4.to_string()]);
    assert!(build_branch_lines(&[]).is_empty());
}

#[test]
fn tree_from_raw_repository() {
    let repo = RawRepo {
        commits: vec![
            raw_commit(H1, &[], "a@x"),
            raw_commit(H2, &[H1], "b@x"),
            raw_commit(H3, &[H2, H1], "a@x"),
        ],
        head: Some(H3.to_string()),
        tags: vec![],
        repo_name: "demo".to_string(),
        remote_url: Some("git@github.com:me/demo.git".to_string()),
    };
    let t = assemble_tree(&repo);
    assert_eq!(t.commits.len(), 3);
    assert_eq!(t.total_contributors, 2);
    assert_eq!(t.main_branch, vec![H1.to_string(), H2.to_string()]);
    assert_eq!(t.branches.len(), 2);
    assert_eq!(t.repo_name, "demo");
    assert_eq!(t.remote_url.as_deref(), Some("git@github.com:me/demo.git"));
    assert!(t.commits[2].is_head && !t.commits[0].is_head);
}
