use oops_terminal::cancel::CancelSignal;
use oops_terminal::control::{
    live_takeover_allowed, reload_plan, resume_attach_decision, soft_interrupt_route,
    AttachRefusal, ClientConnection, ConnectionTable, ReloadPlan, SoftInterruptRoute,
};
use oops_terminal::keyed::KeyedMap;
use oops_terminal::signals::{
    background_signal_for, background_tool_signal_for_session, rename_session_interrupt_queue,
    rename_shutdown_signal,
};
use oops_terminal::subscribe::{subscribe_working_dir_action, WorkingDirAction};

#[test]
fn soft_interrupts_go_to_the_first_available_place() {
    assert!(matches!(soft_interrupt_route(true, true, true), SoftInterruptRoute::Registered));
    assert!(matches!(soft_interrupt_route(false, true, false), SoftInterruptRoute::AgentQueue));
    assert!(matches!(soft_interrupt_route(false, false, true), SoftInterruptRoute::Deferred));
    assert!(matches!(soft_interrupt_route(false, false, false), SoftInterruptRoute::Rejected));
}

#[test]
fn reload_only_when_forced_or_newer() {
    assert!(matches!(reload_plan(false, false, None, "c"), ReloadPlan::Skip));
    match reload_plan(true, false, Some(("agent-s".to_string(), true)), "c") {
        ReloadPlan::Reload { triggering_session, prefer_selfdev_binary } => {
            assert_eq!(triggering_session, "agent-s");
            assert!(prefer_selfdev_binary);
        }
        ReloadPlan::Skip => panic!("forced reload skipped"),
    }
    match reload_plan(false, true, None, "client-s") {
        ReloadPlan::Reload { triggering_session, prefer_selfdev_binary } => {
            assert_eq!(triggering_session, "client-s");
            assert!(!prefer_selfdev_binary);
        }
        ReloadPlan::Skip => panic!("newer binary skipped"),
    }
}

fn conn(client: &str, session: &str) -> ClientConnection {
    ClientConnection {
        client_id: client.to_string(),
        session_id: session.to_string(),
        client_instance_id: None,
        last_seen: 0,
        is_processing: false,
        current_tool_name: None,
        debug_client_id: None,
    }
}

#[test]
fn connection_table_claims_and_checks_attachments() {
    let mut t = ConnectionTable::new();
    t.insert("c1", conn("c1", "s1"));
    t.insert("c2", conn("c2", "s2"));
    assert!(!t.attached_elsewhere("c1", "s1"));
    assert!(t.attached_elsewhere("c1", "s2"));

    assert!(!t.claim_live_target(false, "c1", "s2", Some("i".to_string()), 5));
    assert_eq!(t.get("c1").unwrap().session_id, "s1");
    assert!(t.claim_live_target(true, "c1", "s2", Some("i".to_string()), 5));
    let c = t.get("c1").unwrap();
    assert_eq!(c.session_id, "s2");
    assert_eq!(c.client_instance_id.as_deref(), Some("i"));
    assert_eq!(c.last_seen, 5);
    assert!(!t.claim_live_target(true, "missing", "s2", None, 6));

    assert!(t.attach("c2", "s3", 7));
    assert_eq!(t.get("c2").unwrap().session_id, "s3");
    assert!(!t.attach("nope", "s3", 7));
}

#[test]
fn signals_and_queues_follow_renames() {
    let mut shutdown: KeyedMap<u8> = KeyedMap::new();
    let mut background: KeyedMap<u8> = KeyedMap::new();
    shutdown.insert("old", 1);
    background.insert("old", 2);
    rename_shutdown_signal(&mut shutdown, &mut background, "old", "new");
    assert_eq!(shutdown.get("new"), Some(&1));
    assert_eq!(background.get("new"), Some(&2));
    assert_eq!(shutdown.get("old"), None);
    assert_eq!(background_tool_signal_for_session(&background, "new"), Some(2));
    assert_eq!(background_tool_signal_for_session(&background, "old"), None);

    let held = 9u8;
    assert_eq!(background_signal_for(Some(&held), &background, "new"), Some(&9));
    assert_eq!(background_signal_for(None, &background, "new"), Some(&2));
    assert_eq!(background_signal_for(None, &background, "old"), None);

    let mut queues: KeyedMap<Vec<u8>> = KeyedMap::new();
    queues.insert("a", vec![1]);
    rename_session_interrupt_queue(&mut queues, "a", "a");
    assert_eq!(queues.get("a"), Some(&vec![1]));
    rename_session_interrupt_queue(&mut queues, "a", "b");
    assert_eq!(queues.get("a"), None);
    assert_eq!(queues.get("b"), Some(&vec![1]));
}

#[test]
fn subscribe_working_dir_actions() {
    let home = Some("/home/me");
    match subscribe_working_dir_action(Some("/proj"), " /other ", home) {
        WorkingDirAction::Bind(d) => assert_eq!(d, "/other"),
        _ => panic!("expected bind"),
    }
    assert!(matches!(
        subscribe_working_dir_action(Some("/proj"), "/home/me", home),
        WorkingDirAction::Ignore
    ));
    assert!(matches!(
        subscribe_working_dir_action(Some("/proj"), "/proj", home),
        WorkingDirAction::Keep
    ));
    assert!(matches!(
        subscribe_working_dir_action(None, "  ", home),
        WorkingDirAction::Keep
    ));
}

#[test]
fn takeover_rules() {
    assert!(live_takeover_allowed(true, true, Some("a"), Some("a")));
    assert!(live_takeover_allowed(true, true, None, Some("b")));
    assert!(!live_takeover_allowed(true, true, Some("a"), Some("b")));
    assert!(!live_takeover_allowed(true, false, Some("a"), Some("a")));
    assert!(!live_takeover_allowed(false, true, None, None));

    assert!(resume_attach_decision(true, false, Some("a"), Some("a")).is_ok());
    assert!(resume_attach_decision(true, true, None, Some("b")).is_ok());
    assert!(matches!(
        resume_attach_decision(true, true, Some("a"), Some("b")),
        Err(AttachRefusal::DistinctInstance)
    ));
    assert!(matches!(
        resume_attach_decision(true, false, None, Some("b")),
        Err(AttachRefusal::NoLocalHistory)
    ));
    assert!(matches!(
        resume_attach_decision(false, true, Some("a"), Some("a")),
        Err(AttachRefusal::AlreadyAttached)
    ));
}

#[test]
fn superseding_a_connection_transfers_its_turn() {
    let mut t = ConnectionTable::new();
    let mut owner = conn("old", "s1");
    owner.is_processing = true;
    owner.current_tool_name = Some("bash".to_string());
    owner.debug_client_id = Some("dbg".to_string());
    t.insert("old", owner);
    t.insert("new", conn("new", "s1"));
    assert!(t.find_conflict("old", "s1").map(|c| c.client_id) == Some("new".to_string()));
    let conflict = t.find_conflict("new", "s1").unwrap();
    assert_eq!(conflict.client_id, "old");
    assert!(t.find_conflict("new", "s2").is_none());

    let removed = t.supersede(&conflict, "new").unwrap();
    assert_eq!(removed.debug_client_id.as_deref(), Some("dbg"));
    assert!(t.get("old").is_none());
    let c = t.get("new").unwrap();
    assert!(c.is_processing);
    assert_eq!(c.current_tool_name.as_deref(), Some("bash"));
    // Superseding a connection that is already gone uses the record.
    assert!(t.supersede(&conflict, "new").is_none());
    assert!(t.get("new").unwrap().is_processing);
}

#[test]
fn deferred_reset_keeps_newer_cancel() {
    let mut s = CancelSignal::new();
    assert!(!s.is_fired());
    let e1 = s.fire();
    assert_eq!(e1, 1);
    assert!(s.is_fired());
    let e2 = s.fire();
    assert_eq!(e2, 2);
    assert!(!s.reset_if_epoch(e1));
    assert!(s.is_fired());
    assert!(s.reset_if_epoch(e2));
    assert!(!s.is_fired());
    s.fire();
    s.reset();
    assert!(!s.is_fired());
    assert_eq!(s.epoch(), 3);
}
