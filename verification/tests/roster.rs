use oops_terminal::roster::{SwarmMember, SwarmRoster};

fn ids(v: &[String]) -> Vec<String> {
    let mut v = v.to_vec();
    v.sort();
    v
}

fn member(session: &str, swarm: Option<&str>, report_back: Option<&str>) -> SwarmMember {
    SwarmMember {
        session_id: session.to_string(),
        connections: Vec::new(),
        working_dir: Some("/proj".to_string()),
        swarm_id: swarm.map(String::from),
        swarm_enabled: true,
        status: "running".to_string(),
        detail: Some("busy".to_string()),
        task_label: Some("task".to_string()),
        friendly_name: Some(format!("{session}-name")),
        report_back_to_session_id: report_back.map(String::from),
        latest_completion_report: None,
        role: "agent".to_string(),
        joined_at: 1,
        last_status_change: 2,
        is_headless: true,
        output_tail: None,
        todo_progress: Some((1, 3)),
    }
}

#[test]
fn ensure_member_creates_then_reattaches() {
    let mut r: SwarmRoster<u32> = SwarmRoster::new();
    let inserted = r.ensure_member(
        "s1",
        "c1",
        None,
        Some("fox".to_string()),
        Some("/proj".to_string()),
        Some("swarm-a".to_string()),
        true,
        10,
    );
    assert!(inserted);
    let m = r.member("s1").unwrap();
    assert_eq!(m.status, "ready");
    assert_eq!(m.role, "agent");
    assert_eq!(m.friendly_name.as_deref(), Some("fox"));
    assert_eq!(m.swarm_id.as_deref(), Some("swarm-a"));
    assert_eq!(m.joined_at, 10);
    assert_eq!(ids(r.swarm_sessions("swarm-a").unwrap()), vec!["s1".to_string()]);

    // A second subscribe reuses the member; the session's own name wins.
    let again = r.ensure_member(
        "s1",
        "c2",
        Some("owl".to_string()),
        Some("fox".to_string()),
        None,
        None,
        false,
        20,
    );
    assert!(!again);
    let m = r.member("s1").unwrap();
    assert_eq!(m.friendly_name.as_deref(), Some("owl"));
    assert!(!m.swarm_enabled);
    assert_eq!(m.swarm_id.as_deref(), Some("swarm-a"));
    assert_eq!(m.joined_at, 10);
    assert_eq!(ids(&m.connections), vec!["c1".to_string(), "c2".to_string()]);
}

#[test]
fn ensure_member_without_swarm_coordination_joins_no_swarm() {
    let mut r: SwarmRoster<u32> = SwarmRoster::new();
    assert!(r.ensure_member("s1", "c1", None, None, None, Some("swarm-a".to_string()), false, 1));
    assert_eq!(r.member("s1").unwrap().swarm_id, None);
    assert!(r.swarm_sessions("swarm-a").is_none());
}

#[test]
fn rename_moves_member_and_report_backs() {
    let mut r: SwarmRoster<u32> = SwarmRoster::from_parts(
        vec![
            ("old".to_string(), member("old", Some("sw"), None)),
            ("child".to_string(), member("child", Some("sw"), Some("old"))),
            ("other".to_string(), member("other", None, Some("someone"))),
        ],
        vec![("sw".to_string(), vec!["old".to_string(), "child".to_string()])],
        vec![],
        vec![],
    );
    r.rename_session("old", "new");
    assert!(r.member("old").is_none());
    let m = r.member("new").unwrap();
    assert_eq!(m.session_id, "new");
    assert_eq!(m.status, "ready");
    assert_eq!(m.detail, None);
    assert_eq!(m.task_label.as_deref(), Some("task"));
    assert_eq!(
        r.member("child").unwrap().report_back_to_session_id.as_deref(),
        Some("new")
    );
    assert_eq!(
        r.member("other").unwrap().report_back_to_session_id.as_deref(),
        Some("someone")
    );
    assert_eq!(
        ids(r.swarm_sessions("sw").unwrap()),
        vec!["child".to_string(), "new".to_string()]
    );
}

#[test]
fn cleared_session_replaced_without_touching_report_backs() {
    let mut r: SwarmRoster<u32> = SwarmRoster::from_parts(
        vec![
            ("old".to_string(), member("old", Some("sw"), None)),
            ("child".to_string(), member("child", Some("sw"), Some("old"))),
        ],
        vec![("sw".to_string(), vec!["old".to_string(), "child".to_string()])],
        vec![],
        vec![],
    );
    assert_eq!(r.replace_cleared_session("old", "fresh").as_deref(), Some("sw"));
    assert_eq!(r.member("fresh").unwrap().status, "ready");
    assert_eq!(
        r.member("child").unwrap().report_back_to_session_id.as_deref(),
        Some("old")
    );
    assert_eq!(r.replace_cleared_session("missing", "x"), None);
    assert!(r.member("x").is_none());
}

#[test]
fn rebind_hands_coordination_to_least_member() {
    let mut r: SwarmRoster<u32> = SwarmRoster::from_parts(
        vec![
            ("lead".to_string(), member("lead", Some("sw"), None)),
            ("b".to_string(), member("b", Some("sw"), None)),
            ("a".to_string(), member("a", Some("sw"), None)),
        ],
        vec![(
            "sw".to_string(),
            vec!["lead".to_string(), "b".to_string(), "a".to_string()],
        )],
        vec![("sw".to_string(), "lead".to_string())],
        vec![],
    );
    let rb = r.rebind_working_dir("lead", "/elsewhere".to_string(), Some("sw2".to_string()));
    assert_eq!(rb.old_swarm_id.as_deref(), Some("sw"));
    assert_eq!(rb.swarm_id.as_deref(), Some("sw2"));
    assert_eq!(rb.new_coordinator.as_deref(), Some("a"));
    assert_eq!(r.coordinator("sw").map(|s| s.as_str()), Some("a"));
    let m = r.member("lead").unwrap();
    assert_eq!(m.working_dir.as_deref(), Some("/elsewhere"));
    assert_eq!(m.role, "agent");
    assert_eq!(ids(r.swarm_sessions("sw").unwrap()), vec!["a".to_string(), "b".to_string()]);
    assert_eq!(ids(r.swarm_sessions("sw2").unwrap()), vec!["lead".to_string()]);
}

#[test]
fn rebind_of_last_member_drops_swarm_and_coordinator() {
    let mut r: SwarmRoster<u32> = SwarmRoster::from_parts(
        vec![("solo".to_string(), member("solo", Some("sw"), None))],
        vec![("sw".to_string(), vec!["solo".to_string()])],
        vec![("sw".to_string(), "solo".to_string())],
        vec![],
    );
    let rb = r.rebind_working_dir("solo", "/x".to_string(), Some("other".to_string()));
    assert_eq!(rb.new_coordinator, None);
    assert!(r.swarm_sessions("sw").is_none());
    assert!(r.coordinator("sw").is_none());
}

#[test]
fn rebind_within_same_swarm_keeps_role() {
    let mut coordinator = member("s", Some("sw"), None);
    coordinator.role = "coordinator".to_string();
    let mut r: SwarmRoster<u32> = SwarmRoster::from_parts(
        vec![("s".to_string(), coordinator)],
        vec![("sw".to_string(), vec!["s".to_string()])],
        vec![("sw".to_string(), "s".to_string())],
        vec![],
    );
    let rb = r.rebind_working_dir("s", "/proj/sub".to_string(), Some("sw".to_string()));
    assert_eq!(rb.swarm_id.as_deref(), Some("sw"));
    assert_eq!(r.member("s").unwrap().role, "coordinator");
    // It left and rejoined its swarm, so it is again its least member.
    assert_eq!(rb.new_coordinator.as_deref(), Some("s"));
    assert_eq!(r.coordinator("sw").map(|s| s.as_str()), Some("s"));
}

#[test]
fn load_runtime_lists_members_by_session_id() {
    let r: SwarmRoster<&str> = SwarmRoster::from_parts(
        vec![
            ("zed".to_string(), member("zed", Some("sw"), None)),
            ("amy".to_string(), member("amy", Some("sw"), None)),
            ("out".to_string(), member("out", Some("other"), None)),
            ("kim".to_string(), member("kim", Some("sw"), None)),
        ],
        vec![(
            "sw".to_string(),
            vec!["zed".to_string(), "amy".to_string(), "kim".to_string()],
        )],
        vec![("sw".to_string(), "amy".to_string())],
        vec![("sw".to_string(), "plan-v1")],
    );
    let rt = r.load_runtime("sw");
    assert_eq!(rt.swarm_id, "sw");
    let names: Vec<&str> = rt.members.iter().map(|m| m.session_id.as_str()).collect();
    assert_eq!(names, vec!["amy", "kim", "zed"]);
    assert_eq!(rt.coordinator_session_id.as_deref(), Some("amy"));
    assert_eq!(rt.plan, Some("plan-v1"));
    assert_eq!(ids(&rt.member_session_ids).len(), 3);
    assert!(rt.has_any_state());

    let empty = r.load_runtime("nothing");
    assert!(empty.members.is_empty());
    assert!(empty.member_session_ids.is_empty());
    assert!(!empty.has_any_state());
}

#[test]
fn connections_and_readiness() {
    let mut r: SwarmRoster<u32> = SwarmRoster::from_parts(
        vec![
            ("busy".to_string(), member("busy", None, None)),
            ("idle".to_string(), member("idle", None, None)),
        ],
        vec![],
        vec![],
        vec![],
    );
    assert!(r.live_sessions().is_empty());
    r.register_connection("busy", "c1");
    r.register_connection("busy", "c1");
    r.register_connection("ghost", "c9");
    assert_eq!(r.live_sessions(), vec!["busy".to_string()]);
    assert_eq!(r.member("busy").unwrap().connections.len(), 1);
    r.unregister_connection("busy", "c1");
    assert!(r.live_sessions().is_empty());

    assert!(!r.should_mark_ready("busy"));
    assert!(r.should_mark_ready("nobody"));
    assert_eq!(r.remove_session("busy"), None);
    assert!(r.should_mark_ready("busy"));
}

#[test]
fn from_parts_keeps_the_later_duplicate() {
    let r: SwarmRoster<u32> = SwarmRoster::from_parts(
        vec![],
        vec![],
        vec![
            ("sw".to_string(), "first".to_string()),
            ("sw".to_string(), "second".to_string()),
        ],
        vec![],
    );
    assert_eq!(r.coordinator("sw").map(|s| s.as_str()), Some("second"));
}

#[test]
fn coordinators_follow_a_resumed_session() {
    let mut r: SwarmRoster<u32> = SwarmRoster::from_parts(
        vec![],
        vec![],
        vec![
            ("sw1".to_string(), "old".to_string()),
            ("sw2".to_string(), "keep".to_string()),
            ("sw3".to_string(), "old".to_string()),
        ],
        vec![],
    );
    r.coordinators_follow_rename("old", "new");
    assert_eq!(r.coordinator("sw1").map(|s| s.as_str()), Some("new"));
    assert_eq!(r.coordinator("sw2").map(|s| s.as_str()), Some("keep"));
    assert_eq!(r.coordinator("sw3").map(|s| s.as_str()), Some("new"));
}

#[test]
fn fanout_prunes_closed_connections() {
    let mut r: SwarmRoster<u32> = SwarmRoster::new();
    r.ensure_member("s", "c1", None, None, None, None, false, 0);
    r.register_connection("s", "c2");
    r.register_connection("s", "c3");
    let targets = r.fanout_connections("s", &["c2".to_string(), "zz".to_string()]).unwrap();
    assert_eq!(ids(&targets), vec!["c1".to_string(), "c3".to_string()]);
    assert_eq!(ids(&r.member("s").unwrap().connections), vec!["c1".to_string(), "c3".to_string()]);
    let none_left = r.fanout_connections("s", &["c1".to_string(), "c3".to_string()]).unwrap();
    assert!(none_left.is_empty());
    assert!(r.fanout_connections("missing", &[]).is_none());
}
