use codex_status::local::{newest_logs, LogFile};
use codex_status::order::text_before;

fn log(modified: Option<i128>, path: &str) -> LogFile {
    LogFile { modified, path: path.into(), root: "/r".into() }
}

#[test]
fn texts_are_ordered_by_characters() {
    assert!(text_before("a", "b"));
    assert!(text_before("ab", "abc"));
    assert!(!text_before("abc", "ab"));
    assert!(!text_before("same", "same"));
    assert!(text_before("", "x"));
    assert!(text_before("Z", "a"));
    assert!(text_before("é", "ü"));
}

#[test]
fn the_newest_logs_come_first_and_unknown_times_last() {
    let logs = newest_logs(vec![log(None, "a"), log(Some(5), "b"), log(Some(9), "c"), log(Some(5), "d")]);
    let order: Vec<&str> = logs.iter().map(|l| l.path.as_str()).collect();
    assert_eq!(order, vec!["c", "b", "d", "a"]);
}

#[test]
fn at_most_fifty_logs_are_read_at_once() {
    let logs = newest_logs((0..80).map(|i| log(Some(i), &i.to_string())).collect());
    assert_eq!(logs.len(), 50);
    assert_eq!(logs[0].path, "79");
    assert_eq!(logs[49].path, "30");
}
