use oops_terminal::ansi::strip_ansi;
use oops_terminal::prompt::{looks_like_path, parse_prompt_line};
use oops_terminal::terminal::{
    configured_default_dir, cwd_candidate, default_cwd, default_shell, home_dir, input_log_data,
    input_log_id, resolve_cwd, InputLogEntry, SessionRegistry,
};
use oops_terminal::tracker::{OutputTracker, MAX_TAIL};

#[test]
fn resolve_cwd_override_then_fallback() {
    let def = "D:\\def".to_string();
    assert_eq!(cwd_candidate(Some("  C:\\ovr  ")).as_deref(), Some("C:\\ovr"));
    assert_eq!(resolve_cwd(cwd_candidate(Some("C:\\ovr")), true, def.clone()), "C:\\ovr");
    assert_eq!(
        resolve_cwd(cwd_candidate(Some(r"Z:\oops\missing\dir")), false, def.clone()),
        "D:\\def"
    );
    assert_eq!(cwd_candidate(Some("   ")), None);
    assert_eq!(resolve_cwd(cwd_candidate(Some("   ")), true, def.clone()), "D:\\def");
    assert_eq!(resolve_cwd(cwd_candidate(None), true, def.clone()), "D:\\def");
}

#[test]
fn default_cwd_fallbacks() {
    assert_eq!(configured_default_dir(Some("  ")), None);
    assert_eq!(configured_default_dir(Some(" D:\\x ")).as_deref(), Some(" D:\\x "));
    assert_eq!(
        default_cwd(Some("D:\\x".into()), true, Some("H".into()), "C".into()),
        "D:\\x"
    );
    assert_eq!(default_cwd(Some("D:\\x".into()), false, Some("H".into()), "C".into()), "H");
    assert_eq!(default_cwd(None, false, None, "C".into()), "C");
    assert_eq!(home_dir(Some("U"), Some("H")).as_deref(), Some("U"));
    assert_eq!(home_dir(None, Some("H")).as_deref(), Some("H"));
    assert_eq!(home_dir(None, None), None);
}

#[test]
fn default_shell_by_platform() {
    assert_eq!(default_shell(true, Some("/bin/zsh")), "powershell.exe");
    assert_eq!(default_shell(false, Some("/bin/zsh")), "/bin/zsh");
    assert_eq!(default_shell(false, None), "sh");
}

#[test]
fn session_ids_are_fresh_and_increasing() {
    let mut r = SessionRegistry::new();
    assert!(r.can_open());
    let a = r.open("C:\\a".to_string());
    let b = r.open("C:\\b".to_string());
    assert_eq!(a, 1);
    assert_eq!(b, 2);
    assert_eq!(r.cwd(a).as_deref(), Some("C:\\a"));
    assert!(r.set_cwd(a, "C:\\a2".to_string()));
    assert_eq!(r.cwd(a).as_deref(), Some("C:\\a2"));
    assert!(r.close(a));
    assert!(!r.contains(a));
    assert_eq!(r.cwd(a), None);
    assert!(!r.set_cwd(a, "x".to_string()));
    assert!(!r.close(a));
    assert_eq!(r.cwd(b).as_deref(), Some("C:\\b"));
    let c = r.open("C:\\c".to_string());
    assert_eq!(c, 3);
    assert_eq!(r.cwd(0), None);
    assert_eq!(r.cwd(99), None);
}

#[test]
fn input_log_is_newest_first_and_ids_wrap() {
    assert_eq!(input_log_id(7), 7);
    assert_eq!(input_log_id((1u64 << 32) + 5), 5);
    let e = |c: &str| InputLogEntry {
        time: "t".to_string(),
        id: 1,
        content: c.to_string(),
        cwd: None,
    };
    let d = input_log_data("p".to_string(), vec![e("first\r"), e("second\r"), e("third\r")]);
    assert_eq!(d.path, "p");
    let contents: Vec<&str> = d.entries.iter().map(|x| x.content.as_str()).collect();
    assert_eq!(contents, vec!["third\r", "second\r", "first\r"]);
}

#[test]
fn strip_ansi_cases() {
    assert_eq!(strip_ansi("plain"), "plain");
    assert_eq!(strip_ansi("\x1b[31mred\x1b[0m"), "red");
    assert_eq!(strip_ansi("\x1b]0;title\x1b\\x"), "x");
    assert_eq!(strip_ansi("\x1b]0;title\x1bXy\x07z"), "z");
    assert_eq!(strip_ansi("\x1b7save\x1b8"), "7save8");
    assert_eq!(strip_ansi("unterminated \x1b[12"), "unterminated ");
    assert_eq!(strip_ansi("end\x1b"), "end");
}

#[test]
fn path_shapes() {
    assert!(looks_like_path("C:\\x"));
    assert!(looks_like_path("d:/x"));
    assert!(looks_like_path("\\\\srv"));
    assert!(!looks_like_path("C:"));
    assert!(!looks_like_path("1:\\x"));
    assert!(!looks_like_path("/home"));
}

#[test]
fn prompt_line_variants() {
    assert_eq!(parse_prompt_line("PS\tC:\\x> ").as_deref(), Some("C:\\x"));
    assert_eq!(parse_prompt_line("PS C:\\x\r> ").as_deref(), Some("C:\\x"));
    assert_eq!(parse_prompt_line("PS C:\\x \r> ").as_deref(), Some("C:\\x "));
    assert_eq!(parse_prompt_line("PS C:\\x"), None);
    assert_eq!(parse_prompt_line("ps C:\\x> "), None);
}

#[test]
fn tracker_keeps_bounded_tail() {
    let mut t = OutputTracker::new();
    let long = "x".repeat(MAX_TAIL + 100);
    assert!(t.can_push(&long));
    assert!(t.push(&long).is_empty());
    // the cut partial line no longer starts with the prompt, so nothing is recorded
    let rec = t.push("\r\nPS C:\\p> echo\r\nPS C:\\p> \r\n");
    assert_eq!(rec, vec![("C:\\p".to_string(), "echo".to_string())]);
    assert_eq!(t.cwd().as_deref(), Some("C:\\p"));
}

#[test]
fn tracker_refuses_cut_inside_a_character() {
    let t = OutputTracker::new();
    // 8191 ASCII bytes then a 3-byte character: the 2 oldest bytes must go,
    // which is fine; 8190 bytes then two 3-byte characters would cut one.
    let ok = format!("{}终", "a".repeat(MAX_TAIL - 1));
    assert!(t.can_push(&ok));
    let bad = format!("终{}", "a".repeat(MAX_TAIL - 1));
    assert!(!t.can_push(&bad));
}

#[test]
fn continuation_without_command_is_ignored() {
    let mut t = OutputTracker::new();
    let rec = t.push(">> stray\r\nhello\r\n");
    assert!(rec.is_empty());
    assert_eq!(t.cwd(), None);
}

#[test]
fn input_log_text_parses_latest_first() {
    let lines = [
        "{\"time\":\"t1\",\"id\":1,\"content\":\"echo a\",\"cwd\":\"C:\\\\x\"}\n",
        "not json\n",
        "{\"time\":\"t2\",\"id\":4294967298,\"content\":\"echo b\"}\r\n",
        "{\"time\":\"t3\",\"id\":-1,\"content\":\"bad id\"}\n",
        "{\"time\":\"t4\",\"id\":3,\"content\":5}\n",
        "[1,2]\n",
        "{\"time\":\"t5\",\"id\":3,\"content\":\"echo c\",\"cwd\":7}",
    ];
    let text: String = lines.iter().map(|l| l.to_string()).collect();
    let text = text.as_str();
    let parsed = oops_terminal::terminal::parse_input_log(text);
    let got: Vec<(&str, u32, &str, Option<&str>)> = parsed
        .iter()
        .map(|e| (e.time.as_str(), e.id, e.content.as_str(), e.cwd.as_deref()))
        .collect();
    assert_eq!(
        got,
        vec![
            ("t1", 1, "echo a", Some("C:\\x")),
            ("t2", 2, "echo b", None),
            ("t5", 3, "echo c", None),
        ]
    );
    let d = input_log_data("log".to_string(), parsed);
    assert_eq!(d.entries[0].content, "echo c");
    assert_eq!(d.entries[2].content, "echo a");
    assert!(oops_terminal::terminal::parse_input_log("").is_empty());
}
