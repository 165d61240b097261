use oops_terminal::reload::{
    restored_session_was_interrupted, session_was_interrupted_by_reload, ChatMessage,
    ContentBlock, Role, SessionStatus,
};
use oops_terminal::keyed::KeyedMap;
use oops_terminal::signals::{
    remove_background_tool_signal, rename_background_tool_signal,
};
use oops_terminal::subscribe::{
    effective_subscribe_working_dir, log_ignored_subscribe_working_dir, log_task_completion,
    subscribe_working_dir_replacement, working_dir_replacement, TaskOutcome,
};
use oops_terminal::swarm::{latest_peer_touches, FileAccess, FileOp};

fn access(session: &str, op: FileOp, ts: u64, summary: &str) -> FileAccess {
    FileAccess {
        session_id: session.to_string(),
        op,
        timestamp: ts,
        absolute_time: ts * 1000,
        intent: None,
        summary: Some(summary.to_string()),
        detail: None,
    }
}

#[test]
fn latest_peer_touches_one_per_peer_sorted() {
    let accesses = vec![
        access("zeta", FileOp::Write, 5, "z1"),
        access("alpha", FileOp::Edit, 3, "a1"),
        access("me", FileOp::Write, 9, "mine"),
        access("alpha", FileOp::Edit, 7, "a2"),
        access("alpha", FileOp::Read, 99, "read"),
        access("outsider", FileOp::Write, 50, "o"),
        access("zeta", FileOp::Write, 5, "z2"),
        access("beta", FileOp::Read, 1, "b"),
    ];
    let swarm = vec![
        "alpha".to_string(),
        "beta".to_string(),
        "me".to_string(),
        "zeta".to_string(),
    ];
    let r = latest_peer_touches(&accesses, "me", &swarm);
    let got: Vec<(&str, u64, &str)> = r
        .iter()
        .map(|a| (a.session_id.as_str(), a.timestamp, a.summary.as_deref().unwrap()))
        .collect();
    assert_eq!(got, vec![("alpha", 7, "a2"), ("zeta", 5, "z1")]);
    assert!(latest_peer_touches(&[], "me", &swarm).is_empty());
}

#[test]
fn signal_registry_follows_renames() {
    let mut reg: KeyedMap<u32> = KeyedMap::new();
    reg.insert("s1", 10);
    reg.insert("s2", 20);
    reg.insert("s1", 11);
    assert_eq!(reg.get("s1"), Some(&11));
    rename_background_tool_signal(&mut reg, "s1", "s3");
    assert_eq!(reg.get("s1"), None);
    assert_eq!(reg.get("s3"), Some(&11));
    assert_eq!(reg.get("s2"), Some(&20));
    rename_background_tool_signal(&mut reg, "s3", "s3");
    assert_eq!(reg.get("s3"), Some(&11));
    rename_background_tool_signal(&mut reg, "missing", "s2");
    assert_eq!(reg.get("s2"), Some(&20));
    rename_background_tool_signal(&mut reg, "s3", "s2");
    assert_eq!(reg.get("s2"), Some(&11));
    assert_eq!(reg.get("s3"), None);
    remove_background_tool_signal(&mut reg, "s2");
    assert_eq!(reg.get("s2"), None);
    assert_eq!(reg.remove("s2"), None);
}

#[test]
fn subscribe_working_dir_rules() {
    let home = Some("/home/me");
    assert_eq!(subscribe_working_dir_replacement(Some("/proj"), "  ", home), None);
    assert_eq!(subscribe_working_dir_replacement(Some("/proj"), " /proj ", home), None);
    assert_eq!(subscribe_working_dir_replacement(Some("/proj"), "/home/me", home), None);
    assert_eq!(
        subscribe_working_dir_replacement(None, "/home/me", home).as_deref(),
        Some("/home/me")
    );
    assert_eq!(
        subscribe_working_dir_replacement(Some("/home/me"), "/home/me/x", home).as_deref(),
        Some("/home/me/x")
    );
    assert_eq!(
        subscribe_working_dir_replacement(Some("/proj"), "/other", home).as_deref(),
        Some("/other")
    );
    assert_eq!(
        subscribe_working_dir_replacement(Some("/proj"), "/home/me", None).as_deref(),
        Some("/home/me")
    );
    assert_eq!(effective_subscribe_working_dir(Some("/proj"), "/home/me", home), "/proj");
    assert_eq!(effective_subscribe_working_dir(Some(" /p "), "  ", home), " /p ");
    assert_eq!(effective_subscribe_working_dir(None, " /x ", home), "/x");
    assert_eq!(effective_subscribe_working_dir(None, "  ", home), "");
    assert_eq!(working_dir_replacement(Some("/p"), "/h", true, false), None);
    assert_eq!(working_dir_replacement(Some("/h"), "/h2", true, true).as_deref(), Some("/h2"));
}

#[test]
fn log_messages() {
    assert_eq!(
        log_ignored_subscribe_working_dir("s1", "/proj", "/home/me"),
        "Ignoring subscribe working_dir /home/me for session s1: it is the home directory while the session is already bound to /proj (issue #481)"
    );
    assert_eq!(log_task_completion(TaskOutcome::Finished), None);
    assert_eq!(log_task_completion(TaskOutcome::Cancelled), None);
    assert_eq!(
        log_task_completion(TaskOutcome::Failed("boom".to_string())).as_deref(),
        Some("Server connection task failed: boom")
    );
}

fn msg(role: Role, content: Vec<ContentBlock>) -> ChatMessage {
    ChatMessage { role, content }
}

#[test]
fn reload_interruption_markers() {
    let text = |t: &str| ContentBlock::Text { text: t.to_string() };
    let tool = |c: &str, e: Option<bool>| ContentBlock::ToolResult { content: c.to_string(), is_error: e };
    assert!(!session_was_interrupted_by_reload(&[]));
    assert!(session_was_interrupted_by_reload(&[msg(
        Role::Assistant,
        vec![text("partial [generation interrupted - server reloading]")]
    )]));
    assert!(!session_was_interrupted_by_reload(&[msg(
        Role::Assistant,
        vec![text("[generation interrupted - server reloading] then more")]
    )]));
    assert!(session_was_interrupted_by_reload(&[msg(
        Role::User,
        vec![ContentBlock::Other, tool("Reload initiated. Process restarting...", None)]
    )]));
    assert!(session_was_interrupted_by_reload(&[msg(
        Role::User,
        vec![tool("tool was interrupted by server reload", Some(true))]
    )]));
    assert!(!session_was_interrupted_by_reload(&[msg(
        Role::User,
        vec![tool("tool was interrupted by server reload", Some(false))]
    )]));
    assert!(session_was_interrupted_by_reload(&[msg(
        Role::User,
        vec![tool("Skipped - server reloading", Some(true))]
    )]));
    // only the last message counts
    assert!(!session_was_interrupted_by_reload(&[
        msg(Role::Assistant, vec![text("x [generation interrupted - server reloading]")]),
        msg(Role::User, vec![text("hi")]),
    ]));
}

#[test]
fn restored_session_interruption() {
    let user = vec![msg(Role::User, vec![ContentBlock::Text { text: "hi".to_string() }])];
    let asst = vec![msg(Role::Assistant, vec![ContentBlock::Text { text: "ok".to_string() }])];
    assert!(restored_session_was_interrupted(&SessionStatus::Crashed, &asst, false));
    assert!(restored_session_was_interrupted(&SessionStatus::Active, &user, false));
    assert!(!restored_session_was_interrupted(&SessionStatus::Active, &asst, false));
    assert!(!restored_session_was_interrupted(&SessionStatus::Closed, &user, false));
    assert!(restored_session_was_interrupted(&SessionStatus::Closed, &user, true));
    assert!(!restored_session_was_interrupted(&SessionStatus::Closed, &asst, true));
    assert!(!restored_session_was_interrupted(&SessionStatus::Other, &user, true));
}
