use oops_terminal::history::{
    appdata_dir, collect_jsonl_entries, history_from_oops, history_from_psreadline, history_lines,
    latest_entries, oops_history_path, parse_psreadline_entries, psreadline_history_path,
    should_record_history, HistoryEntry,
};

/// Parses one JSONL record the way a derived deserializer for
/// `HistoryEntry` does: `command` must be a string, `time` may be missing,
/// null or a string.
fn parse_record(line: &str) -> Option<HistoryEntry> {
    let v: serde_json::Value = serde_json::from_str(line).ok()?;
    let obj = v.as_object()?;
    let command = obj.get("command")?.as_str()?.to_string();
    let time = match obj.get("time") {
        None => None,
        Some(serde_json::Value::Null) => None,
        Some(t) => Some(t.as_str()?.to_string()),
    };
    Some(HistoryEntry { time, command })
}

fn parse_jsonl_entries(text: &str, max: usize) -> (usize, Vec<HistoryEntry>) {
    let parsed: Vec<HistoryEntry> = history_lines(text)
        .iter()
        .filter_map(|line| parse_record(line))
        .collect();
    collect_jsonl_entries(parsed, max)
}

fn entry(time: Option<&str>, command: &str) -> HistoryEntry {
    HistoryEntry { time: time.map(|t| t.to_string()), command: command.to_string() }
}

#[test]
fn parses_jsonl_entries_newest_first() {
    let text = "\u{feff}{\"time\":\"2026-08-07T10:00:00+08:00\",\"command\":\"Set-Alias j jcode\"}\r\n{\"time\":\"2026-08-07T09:00:00+08:00\",\"command\":\"Set-Alias l lazygit\"}\n\n{\"time\":\"2026-08-07T08:00:00+08:00\",\"command\":\"irm https://example.test\"}";
    let (total, entries) = parse_jsonl_entries(text, 10);

    assert_eq!(total, 3);
    assert_eq!(entries[0].command, "irm https://example.test");
    assert_eq!(entries[0].time.as_deref(), Some("2026-08-07T08:00:00+08:00"));
    assert_eq!(entries[2].command, "Set-Alias j jcode");
}

#[test]
fn ignores_malformed_and_empty_jsonl_entries() {
    let text = "not-json\n{\"command\":\"ls\"}\n{\"time\":\"2026-08-07T10:00:00+08:00\",\"command\":\"\"}\n";
    let (total, entries) = parse_jsonl_entries(text, 10);

    assert_eq!(total, 1);
    assert_eq!(entries[0].command, "ls");
    assert_eq!(entries[0].time, None);
}

#[test]
fn limits_jsonl_entries_to_latest() {
    let text = "{\"time\":\"2026-08-07T10:00:00+08:00\",\"command\":\"a\"}\n{\"time\":\"2026-08-07T11:00:00+08:00\",\"command\":\"b\"}\n{\"time\":\"2026-08-07T12:00:00+08:00\",\"command\":\"c\"}\n";
    let (total, entries) = parse_jsonl_entries(text, 2);

    assert_eq!(total, 3);
    assert_eq!(entries.len(), 2);
    assert_eq!(entries[0].command, "c");
    assert_eq!(entries[1].command, "b");
}

#[test]
fn parses_psreadline_lines_newest_first_without_time() {
    let (total, entries) = parse_psreadline_entries(
        "irm https://example.test\r\nSet-Alias l lazygit\n\nSet-Alias j jcode",
        10,
    );

    assert_eq!(total, 3);
    assert_eq!(entries[0].command, "Set-Alias j jcode");
    assert_eq!(entries[0].time, None);
    assert_eq!(entries[2].command, "irm https://example.test");
}

#[test]
fn latest_entries_reverses_and_truncates() {
    let (total, entries) =
        latest_entries(vec![entry(None, "a"), entry(None, "b"), entry(Some("t"), "c")], 2);
    assert_eq!(total, 3);
    assert_eq!(entries.len(), 2);
    assert_eq!(entries[0].command, "c");
    assert_eq!(entries[0].time.as_deref(), Some("t"));
    assert_eq!(entries[1].command, "b");
    let (total, entries) = latest_entries(Vec::new(), 5);
    assert_eq!(total, 0);
    assert!(entries.is_empty());
    let (total, entries) = latest_entries(vec![entry(None, "a")], 0);
    assert_eq!(total, 1);
    assert!(entries.is_empty());
}

#[test]
fn history_lines_drop_blank_and_bom() {
    let lines = history_lines("\u{feff}a\r\r\n \t\n\u{3000}\nb\r");
    assert_eq!(lines, vec!["a".to_string(), "b".to_string()]);
    assert!(history_lines("").is_empty());
}

#[test]
fn blank_commands_are_dropped_from_jsonl() {
    let (total, entries) =
        collect_jsonl_entries(vec![entry(None, " "), entry(Some("x"), "ls"), entry(None, "\t")], 10);
    assert_eq!(total, 1);
    assert_eq!(entries[0].command, "ls");
}

#[test]
fn history_paths_join_components() {
    assert_eq!(
        oops_history_path(Some("C:\\Users\\me\\AppData\\Roaming"), '\\').as_deref(),
        Some("C:\\Users\\me\\AppData\\Roaming\\OopsTerminal\\history-with-time.jsonl")
    );
    assert_eq!(
        oops_history_path(Some("/home/me/"), '/').as_deref(),
        Some("/home/me/OopsTerminal/history-with-time.jsonl")
    );
    assert_eq!(
        psreadline_history_path(Some("R"), '\\').as_deref(),
        Some("R\\Microsoft\\Windows\\PowerShell\\PSReadLine\\ConsoleHost_history.txt")
    );
    assert_eq!(oops_history_path(None, '/'), None);
    assert_eq!(psreadline_history_path(None, '\\'), None);
}

#[test]
fn appdata_dir_prefers_appdata_then_home() {
    assert_eq!(appdata_dir(Some("A"), Some("U"), Some("H"), '\\').as_deref(), Some("A"));
    assert_eq!(
        appdata_dir(None, Some("C:\\Users\\me"), Some("H"), '\\').as_deref(),
        Some("C:\\Users\\me\\AppData\\Roaming")
    );
    assert_eq!(
        appdata_dir(None, None, Some("/home/me"), '/').as_deref(),
        Some("/home/me/AppData/Roaming")
    );
    assert_eq!(appdata_dir(None, None, None, '/'), None);
}

#[test]
fn history_source_selection() {
    assert!(history_from_oops(0, Vec::new()).is_none());
    let h = history_from_oops(1, vec![entry(None, "ls")]).unwrap();
    assert_eq!(h.source, "oops");
    assert_eq!(h.total, 1);
    let p = history_from_psreadline(Some("a\nb\n"));
    assert_eq!(p.source, "psreadline");
    assert_eq!(p.total, 2);
    assert_eq!(p.entries[0].command, "b");
    let n = history_from_psreadline(None);
    assert_eq!(n.source, "none");
    assert_eq!(n.total, 0);
    assert!(n.entries.is_empty());
}

#[test]
fn blank_commands_are_not_recorded() {
    assert!(!should_record_history(""));
    assert!(!should_record_history(" \t\r\n"));
    assert!(should_record_history(" ls "));
}
