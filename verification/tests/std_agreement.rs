//! The library's text operations give what the standard library's string
//! methods give on the same inputs.
use chrono::{Datelike, TimeZone, Utc};
use git_tree_viz::auth::is_html_answer;
use git_tree_viz::components::stats::day_of;
use git_tree_viz::components::user_repos::{owner_clone_url, updated_label};
use git_tree_viz::parser::{build_commit, first_line_of, DiffStats, RawCommit};
use git_tree_viz::text::char_is_whitespace;
use git_tree_viz::updater::{is_newer, parse_version, summarize_notes};
use git_tree_viz::url::{clone_folder_name, inject_token_into_url, to_https};

const SAMPLES: &[&str] = &[
    "",
    "a",
    "a\r",
    "a\n",
    "a\r\n",
    "\r\n",
    "\n\nx",
    "one\ntwo\r\nthree\r",
    " \t\n  \nfirst real\n\u{3000}\nsecond\nthird\nfourth",
    "x\r\r\ny",
    "héllo\nwörld",
];

#[test]
fn whitespace_agrees_for_every_char() {
    for u in 0..=0x10FFFFu32 {
        if let Some(c) = char::from_u32(u) {
            assert_eq!(char_is_whitespace(c), c.is_whitespace(), "U+{u:04X}");
        }
    }
}

#[test]
fn first_line_agrees_with_lines() {
    for s in SAMPLES {
        assert_eq!(first_line_of(s), s.lines().next().unwrap_or(""), "{s:?}");
    }
}

#[test]
fn notes_summary_agrees_with_lines() {
    for s in SAMPLES {
        let expected = s.lines().filter(|l| !l.trim().is_empty()).take(3).collect::<Vec<_>>().join(" · ");
        assert_eq!(summarize_notes(s), expected, "{s:?}");
    }
}

#[test]
fn html_answers_agree_with_trim_start() {
    for s in ["<html>", "  \n<!DOCTYPE", "{\"a\":1}", "", " ", "\u{3000}<p>", "x<"] {
        assert_eq!(is_html_answer(s), s.trim_start().starts_with('<'), "{s:?}");
    }
}

fn std_https(remote: &str) -> Option<String> {
    let remote = remote.trim_end_matches('/').trim_end_matches(".git");
    if remote.starts_with("git@") {
        let (host, path) = remote.strip_prefix("git@")?.split_once(':')?;
        Some(format!("https://{}/{}", host, path))
    } else if remote.starts_with("https://") {
        Some(remote.to_string())
    } else if let Some(rest) = remote.strip_prefix("http://") {
        Some(format!("https://{rest}"))
    } else if let Some(rest) = remote.strip_prefix("ssh://") {
        let host_path = match rest.split_once('@') {
            Some((user, after)) if !user.contains('/') => after,
            _ => rest,
        };
        Some(format!("https://{host_path}"))
    } else {
        None
    }
}

#[test]
fn urls_agree_with_str_methods() {
    let remotes = [
        "git@github.com:user/repo.git",
        "git@github.com:user/repo.git/",
        "git@host:a:b",
        "git@nocolon",
        "https://gitlab.com/g/p.git.git//",
        "http://h/x",
        "ssh://h/x",
        "ssh://git@h/x.git",
        "ssh://h/a@b",
        "ssh://u@",
        "ssh://",
        "",
        ".git",
        "https://h/repo",
    ];
    for r in remotes {
        assert_eq!(to_https(r), std_https(r), "{r:?}");
        let folder = r.trim_end_matches('/').split('/').next_back().unwrap_or("repo").trim_end_matches(".git");
        assert_eq!(clone_folder_name(r), folder, "{r:?}");
        let injected = if r.starts_with("https://") { r.replacen("https://", "https://t@", 1) } else { r.to_string() };
        assert_eq!(inject_token_into_url(r, "t"), injected, "{r:?}");
    }
}

fn std_version(s: &str) -> (u32, u32, u32) {
    let mut it = s
        .split(|c: char| c == '-' || c == '+')
        .next()
        .unwrap_or(s)
        .split('.')
        .filter_map(|p| p.parse::<u32>().ok());
    (it.next().unwrap_or(0), it.next().unwrap_or(0), it.next().unwrap_or(0))
}

#[test]
fn versions_agree_with_parse() {
    let vs = [
        "0.3.0", "1.2.3-beta+7", "1..3", "v1.2.3", "4294967295.1.2", "4294967296.1.2", "+1.2", "1.2.3.4", "", "x.7.8",
        "01.002.3", "1.+2", "٣.1.1", "1.2.3+build-1",
    ];
    for a in vs {
        assert_eq!(parse_version(a), std_version(a), "{a:?}");
        for b in vs {
            assert_eq!(is_newer(a, b), std_version(a) > std_version(b), "{a:?} {b:?}");
        }
    }
}

#[test]
fn owner_clone_urls_agree_with_trim_start() {
    for u in ["https://github.com/a/b.git", "https://https://x", "http://h/x", "", "https:/"] {
        let expected = format!("https://{}@{}", "tok", u.trim_start_matches("https://"));
        assert_eq!(owner_clone_url("tok", u), expected, "{u:?}");
    }
}

#[test]
fn update_dates_agree_with_get() {
    for s in ["2024-05-01T10:00:00Z", "2024-05-01", "2024", "", "123456789é", "12345678é", "ééééé", "éééééx", "𝄞𝄞𝄞ab"] {
        assert_eq!(updated_label(Some(s)), s.get(..10).unwrap_or("—"), "{s:?}");
    }
}

#[test]
fn days_agree_with_chrono() {
    let epoch_days = Utc.timestamp_opt(0, 0).unwrap().date_naive().num_days_from_ce() as i64;
    for t in [0i64, 1, 86_399, 86_400, -1, -86_399, -86_400, -86_401, 1_704_110_400, 4_102_444_800, -2_208_988_800] {
        let date = Utc.timestamp_opt(t, 0).unwrap().date_naive();
        let d = day_of(t);
        assert_eq!(d, date.num_days_from_ce() as i64 - epoch_days, "{t}");
        assert_eq!((d + 3).rem_euclid(7), date.weekday().num_days_from_monday() as i64, "{t}");
    }
}

#[test]
fn short_hashes_agree_with_slicing() {
    for h in ["0123456789abcdef0123456789abcdef01234567", "é12345xyz", "abcdefg", "ab𝄞cdef"] {
        let raw = RawCommit {
            hash: h.to_string(),
            author_name: None,
            author_email: None,
            message: None,
            time_secs: 0,
            parent_hashes: vec![],
            deltas: vec![],
            stats: DiffStats::default(),
        };
        assert_eq!(build_commit(&raw, &None, &vec![]).short_hash, &h[..7], "{h:?}");
    }
}

#[test]
fn commit_times_outside_chrono_become_the_epoch() {
    for (t, kept) in [
        (-8_334_601_228_800i64, true),
        (-8_334_601_228_801, false),
        (8_210_266_876_799, true),
        (8_210_266_876_800, false),
        (0, true),
        (i64::MIN, false),
        (i64::MAX, false),
    ] {
        assert_eq!(chrono::DateTime::from_timestamp(t, 0).is_some(), kept, "{t}");
        let raw = RawCommit {
            hash: "0123456789".to_string(),
            author_name: None,
            author_email: None,
            message: None,
            time_secs: t,
            parent_hashes: vec![],
            deltas: vec![],
            stats: DiffStats::default(),
        };
        assert_eq!(build_commit(&raw, &None, &vec![]).timestamp, if kept { t } else { 0 }, "{t}");
    }
}
