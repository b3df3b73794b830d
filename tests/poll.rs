use cloud_logs::{
    collect_new_lines, IncompleteLog, LogEntry, LogLine, LogPoller, LogsCommand, Phase,
    PollAction, PollConfig,
};

fn line(time: &str, text: &str) -> LogLine {
    LogLine { time: Some(time.to_string()), line: Some(text.to_string()) }
}

fn entry(lines: Vec<LogLine>) -> LogEntry {
    LogEntry { log_lines: Some(lines) }
}

fn config(follow: bool) -> PollConfig {
    PollConfig { follow, interval_secs: 2, max_lines: Some(10), since_secs: 60 }
}

fn expect_fetch(p: &LogPoller) -> (Option<i32>, String) {
    match p.next_action() {
        PollAction::Fetch { max_lines, since } => (max_lines, since),
        _ => panic!("expected a fetch"),
    }
}

#[test]
fn empty_fetch_keeps_cursor() {
    let mut p = LogPoller::new(config(true), "C0".to_string());
    let out = p.fetched(&Vec::new()).unwrap();
    assert!(out.is_empty());
    assert_eq!(p.cursor(), "C0");
}

#[test]
fn entries_printed_oldest_first() {
    // the service lists the newest entry first
    let entries = vec![entry(vec![line("T2", "b")]), entry(vec![line("T1", "a")])];
    let mut p = LogPoller::new(config(false), "C0".to_string());
    let out = p.fetched(&entries).unwrap();
    assert_eq!(out, vec!["a".to_string(), "b".to_string()]);
    assert_eq!(p.cursor(), "T2");
}

#[test]
fn lines_within_an_entry_keep_their_order() {
    let entries = vec![
        entry(vec![line("T3", "c"), line("T4", "d")]),
        entry(vec![line("T1", "a"), line("T2", "b")]),
    ];
    let (texts, last) = collect_new_lines(&entries).unwrap();
    assert_eq!(texts, vec!["a", "b", "c", "d"]);
    assert_eq!(last, "T4");
}

#[test]
fn entries_without_lines_give_empty_cursor() {
    let entries = vec![entry(Vec::new())];
    let mut p = LogPoller::new(config(true), "C0".to_string());
    let out = p.fetched(&entries).unwrap();
    assert!(out.is_empty());
    assert_eq!(p.cursor(), "");
}

#[test]
fn missing_text_is_an_error() {
    let entries = vec![entry(vec![LogLine { time: Some("T1".to_string()), line: None }])];
    assert_eq!(collect_new_lines(&entries).err(), Some(IncompleteLog));
    let mut p = LogPoller::new(config(true), "C0".to_string());
    assert_eq!(p.fetched(&entries).err(), Some(IncompleteLog));
    assert_eq!(p.phase(), Phase::Finished);
    assert!(matches!(p.next_action(), PollAction::Stop));
}

#[test]
fn missing_time_or_lines_is_an_error() {
    let no_time = vec![entry(vec![LogLine { time: None, line: Some("a".to_string()) }])];
    assert_eq!(collect_new_lines(&no_time).err(), Some(IncompleteLog));
    let no_lines = vec![entry(vec![line("T1", "a")]), LogEntry { log_lines: None }];
    assert_eq!(collect_new_lines(&no_lines).err(), Some(IncompleteLog));
}

#[test]
fn without_follow_fetches_once() {
    for entries in [Vec::new(), vec![entry(vec![line("T1", "a")])]] {
        let mut p = LogPoller::new(config(false), "C0".to_string());
        assert_eq!(expect_fetch(&p), (Some(10), "C0".to_string()));
        p.fetched(&entries).unwrap();
        assert_eq!(p.phase(), Phase::Finished);
        assert!(matches!(p.next_action(), PollAction::Stop));
    }
}

#[test]
fn with_follow_sleeps_between_fetches() {
    let mut p = LogPoller::new(config(true), "C0".to_string());
    assert_eq!(expect_fetch(&p), (Some(10), "C0".to_string()));
    p.fetched(&vec![entry(vec![line("T1", "a")])]).unwrap();
    for round in 0..3 {
        assert!(matches!(p.next_action(), PollAction::Sleep { secs: 2 }));
        p.slept();
        let (max_lines, since) = expect_fetch(&p);
        assert_eq!(max_lines, None);
        assert_eq!(since, "T1");
        let out = p.fetched(&Vec::new()).unwrap();
        assert!(out.is_empty(), "round {}", round);
    }
    assert!(matches!(p.next_action(), PollAction::Sleep { secs: 2 }));
}

#[test]
fn start_reads_the_clock() {
    let p = LogPoller::start(config(false)).unwrap();
    assert_eq!(p.phase(), Phase::Fetching);
    assert!(!p.cursor().is_empty());
    let (max_lines, _) = expect_fetch(&p);
    assert_eq!(max_lines, Some(10));
}

#[test]
fn command_poll_config() {
    let cmd = LogsCommand {
        deployment_env_id: None,
        app: "myapp".to_string(),
        follow: true,
        max_lines: 10,
        interval_secs: 5,
        since: 7 * 86400,
    };
    assert_eq!(
        cmd.poll_config(),
        PollConfig { follow: true, interval_secs: 5, max_lines: Some(10), since_secs: 7 * 86400 }
    );
}
