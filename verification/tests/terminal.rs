use oops_terminal::prompt::{parse_prompt_command, parse_prompt_cwd};
use oops_terminal::tracker::OutputTracker;

#[test]
fn parses_default_prompt() {
    assert_eq!(
        parse_prompt_cwd("PS C:\\Users\\me\\proj> "),
        Some("C:\\Users\\me\\proj".into())
    );
}

#[test]
fn parses_prompt_with_ansi_colors() {
    let s = "\x1b[4;1H\x1b[?25hPS \x1b[36mC:\\Users\\me\\proj\x1b[0m> ";
    assert_eq!(parse_prompt_cwd(s), Some("C:\\Users\\me\\proj".into()));
}

#[test]
fn parses_nested_prompt() {
    assert_eq!(parse_prompt_cwd("PS C:\\a\\b>> "), Some("C:\\a\\b".into()));
}

#[test]
fn parses_unc_prompt() {
    assert_eq!(
        parse_prompt_cwd("PS \\\\server\\share\\dir> "),
        Some("\\\\server\\share\\dir".into())
    );
}

#[test]
fn parses_path_with_spaces() {
    assert_eq!(
        parse_prompt_cwd("PS C:\\Program Files\\Some App> "),
        Some("C:\\Program Files\\Some App".into())
    );
}

#[test]
fn ignores_non_filesystem_provider_prompt() {
    assert_eq!(parse_prompt_cwd("PS Env:> "), None);
    assert_eq!(parse_prompt_cwd("PS HKLM:\\Software> "), None);
}

#[test]
fn ignores_custom_prompt() {
    assert_eq!(parse_prompt_cwd("PS> "), None);
    assert_eq!(parse_prompt_cwd("user@host:~$ "), None);
}

#[test]
fn picks_latest_prompt() {
    let s = "PS C:\\old> \r\nPS C:\\new> ";
    assert_eq!(parse_prompt_cwd(s), Some("C:\\new".into()));
}

#[test]
fn strips_osc_title_sequence() {
    let s = "\x1b]0;powershell.exe\x07PS C:\\x> ";
    assert_eq!(parse_prompt_cwd(s), Some("C:\\x".into()));
}

#[test]
fn parses_root_prompt() {
    assert_eq!(parse_prompt_cwd("PS C:\\> "), Some("C:\\".into()));
}

#[test]
fn tracker_records_submitted_command() {
    let mut t = OutputTracker::new();
    assert!(t.push("Windows PowerShell\r\nPS C:\\proj> \r\n").is_empty());
    let rec = t.push("PS C:\\proj> echo hi\r\nhi\r\nPS C:\\proj> \r\n");
    assert_eq!(rec, vec![("C:\\proj".to_string(), "echo hi".to_string())]);
}

#[test]
fn tracker_across_chunks() {
    let mut t = OutputTracker::new();
    assert!(t.push("PS C:\\proj> ech").is_empty());
    let rec = t.push("o hi\r\nPS C:\\proj> \r\n");
    assert_eq!(rec, vec![("C:\\proj".to_string(), "echo hi".to_string())]);
}

#[test]
fn tracker_merges_continuation_lines() {
    let mut t = OutputTracker::new();
    let rec = t.push(
        "PS C:\\proj> foreach ($i in 1..3) {\r\n>> $i\r\n>> }\r\n1\r\n2\r\n3\r\nPS C:\\proj> \r\n",
    );
    assert_eq!(
        rec,
        vec![(
            "C:\\proj".to_string(),
            "foreach ($i in 1..3) {\n$i\n}".to_string()
        )]
    );
}

#[test]
fn tracker_keeps_redirect_in_command() {
    let mut t = OutputTracker::new();
    let rec = t.push("PS C:\\proj> dir > out.txt\r\nPS C:\\proj> \r\n");
    assert_eq!(rec, vec![("C:\\proj".to_string(), "dir > out.txt".to_string())]);
}

#[test]
fn tracker_skips_empty_and_strips_ansi() {
    let mut t = OutputTracker::new();
    let rec = t.push(
        "PS C:\\proj> \r\n\x1b[36mPS C:\\proj\x1b[0m> git status\r\nPS C:\\proj> \r\n",
    );
    assert_eq!(rec, vec![("C:\\proj".to_string(), "git status".to_string())]);
}

#[test]
fn tracker_no_duplicate_without_new_output() {
    let mut t = OutputTracker::new();
    let chunk = "PS C:\\proj> echo hi\r\nPS C:\\proj> \r\n";
    assert_eq!(
        t.push(chunk),
        vec![("C:\\proj".to_string(), "echo hi".to_string())]
    );
    assert!(t.push("").is_empty());
}

#[test]
fn tracker_uses_command_time_cwd() {
    let mut t = OutputTracker::new();
    let rec = t.push("PS C:\\old> cd ..\r\nPS C:\\new> \r\n");
    assert_eq!(rec, vec![("C:\\old".to_string(), "cd ..".to_string())]);
    assert_eq!(t.cwd().as_deref(), Some("C:\\new"));
}

#[test]
fn parse_prompt_command_basics() {
    assert_eq!(
        parse_prompt_command("PS C:\\x> echo hi"),
        Some(("C:\\x".to_string(), "echo hi".to_string()))
    );
    assert_eq!(parse_prompt_command("PS C:\\x> "), None);
    assert_eq!(parse_prompt_command("PS C:\\x>"), None);
    assert_eq!(parse_prompt_command("hi"), None);
    assert_eq!(parse_prompt_command("PS Env:> "), None);
    assert_eq!(
        parse_prompt_command("PS C:\\Program Files\\App> ls"),
        Some(("C:\\Program Files\\App".to_string(), "ls".to_string()))
    );
}
