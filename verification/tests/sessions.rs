use oops_terminal::control::{ClientConnection, ConnectionTable};
use oops_terminal::keyed::KeyedMap;
use oops_terminal::roster::SwarmRoster;
use oops_terminal::sessions::SessionTables;

fn tables() -> SessionTables<u8, u8, Vec<String>, u32> {
    let mut roster: SwarmRoster<u32> = SwarmRoster::from_parts(
        vec![],
        vec![],
        vec![("sw".to_string(), "tmp".to_string())],
        vec![],
    );
    roster.ensure_member("tmp", "c1", None, None, None, Some("sw".to_string()), true, 1);
    let mut connections = ConnectionTable::new();
    connections.insert(
        "c1",
        ClientConnection {
            client_id: "c1".to_string(),
            session_id: "tmp".to_string(),
            client_instance_id: None,
            last_seen: 0,
            is_processing: false,
            current_tool_name: None,
            debug_client_id: None,
        },
    );
    let mut shutdown = KeyedMap::new();
    shutdown.insert("tmp", 1u8);
    let mut background = KeyedMap::new();
    background.insert("tmp", 2u8);
    let mut queues = KeyedMap::new();
    queues.insert("tmp", vec!["hello".to_string()]);
    SessionTables {
        roster,
        connections,
        shutdown_signals: shutdown,
        background_signals: background,
        interrupt_queues: queues,
    }
}

#[test]
fn resume_moves_every_table_to_the_stored_session() {
    let mut t = tables();
    t.resume_session("tmp", "stored", "c1", Some("inst".to_string()), 9);
    assert_eq!(t.shutdown_signals.get("stored"), Some(&1));
    assert_eq!(t.background_signals.get("stored"), Some(&2));
    assert_eq!(t.interrupt_queues.get("stored").map(|q| q.len()), Some(1));
    assert!(t.shutdown_signals.get("tmp").is_none());
    assert!(t.interrupt_queues.get("tmp").is_none());
    assert!(t.roster.member("tmp").is_none());
    assert_eq!(t.roster.member("stored").unwrap().session_id, "stored");
    assert_eq!(t.roster.coordinator("sw").map(|s| s.as_str()), Some("stored"));
    let c = t.connections.get("c1").unwrap();
    assert_eq!(c.session_id, "stored");
    assert_eq!(c.client_instance_id.as_deref(), Some("inst"));
    assert_eq!(c.last_seen, 9);
}

#[test]
fn clear_replaces_the_session_with_a_fresh_one() {
    let mut t = tables();
    let swarm = t.clear_session("tmp", "fresh", "c1", 5, 7, 8, Vec::new());
    assert_eq!(swarm.as_deref(), Some("sw"));
    assert_eq!(t.shutdown_signals.get("fresh"), Some(&7));
    assert_eq!(t.background_signals.get("fresh"), Some(&8));
    assert_eq!(t.interrupt_queues.get("fresh").map(|q| q.len()), Some(0));
    assert!(t.shutdown_signals.get("tmp").is_none());
    assert!(t.background_signals.get("tmp").is_none());
    assert!(t.interrupt_queues.get("tmp").is_none());
    assert_eq!(t.roster.member("fresh").unwrap().status, "ready");
    assert_eq!(t.connections.get("c1").unwrap().session_id, "fresh");
}
