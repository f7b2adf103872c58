use event_server::api::{
    clear_events, delete_session, get_recent_events, health, receive_event, Notification,
    STATUS_CREATED, STATUS_OK,
};
use event_server::event::HookEvent;
use event_server::port::{port_candidates, select_port, FALLBACK_FIRST, FALLBACK_LAST, PREFERRED_PORT};
use event_server::store::{EventStore, CAPACITY, RECENT_LIMIT};

fn ev(app: &str, session: &str, kind: &str, ts: &str) -> HookEvent {
    HookEvent {
        source_app: app.to_string(),
        session_id: session.to_string(),
        hook_event_type: kind.to_string(),
        timestamp: ts.to_string(),
        payload: serde_json::Value::Object(serde_json::Map::new()),
    }
}

fn ids(store: &EventStore, limit: usize) -> Vec<u64> {
    store.recent(limit).iter().map(|e| e.id).collect()
}

#[test]
fn ids_are_sequential_from_one() {
    let mut store = EventStore::new();
    for i in 0..10u64 {
        let r = store.append(ev("a", "s", "k", &format!("T{}", i)));
        assert_eq!(r.id, i + 1);
    }
    assert_eq!(ids(&store, 100), (1..=10).collect::<Vec<u64>>());
    assert_eq!(store.next_id(), 11);
}

#[test]
fn append_at_keeps_fields() {
    let mut store = EventStore::new();
    let r = store.append_at(ev("agent", "s9", "stop", "T5"), "2024-01-01T00:00:00+00:00".to_string());
    assert_eq!(r.id, 1);
    assert_eq!(r.source_app, "agent");
    assert_eq!(r.session_id, "s9");
    assert_eq!(r.hook_event_type, "stop");
    assert_eq!(r.timestamp, "T5");
    assert_eq!(r.created_at, "2024-01-01T00:00:00+00:00");
    assert_eq!(store.recent(1)[0].created_at, "2024-01-01T00:00:00+00:00");
}

#[test]
fn append_stamps_current_time() {
    let mut store = EventStore::new();
    let r = store.append(ev("a", "s", "k", "T"));
    assert!(!r.created_at.is_empty());
    assert_ne!(r.created_at, "T");
    assert!(chrono::DateTime::parse_from_rfc3339(&r.created_at).is_ok());
}

#[test]
fn capacity_keeps_newest_thousand() {
    let mut store = EventStore::new();
    for _ in 0..1005 {
        store.append(ev("a", "s", "k", "T"));
    }
    assert_eq!(store.len(), CAPACITY);
    assert_eq!(store.len(), 1000);
    let all = ids(&store, 2000);
    assert_eq!(all, (6..=1005).collect::<Vec<u64>>());
    assert_eq!(store.next_id(), 1006);
}

#[test]
fn exactly_capacity_evicts_nothing() {
    let mut store = EventStore::new();
    for _ in 0..1000 {
        store.append(ev("a", "s", "k", "T"));
    }
    assert_eq!(store.len(), 1000);
    assert_eq!(ids(&store, 1000)[0], 1);
}

#[test]
fn recent_is_ascending_suffix() {
    let mut store = EventStore::new();
    for _ in 0..700 {
        store.append(ev("a", "s", "k", "T"));
    }
    let r = get_recent_events(&store);
    assert_eq!(r.len(), RECENT_LIMIT);
    assert_eq!(r.len(), 500);
    assert_eq!(r[0].id, 201);
    assert_eq!(r[499].id, 700);
    assert!(r.windows(2).all(|w| w[0].id < w[1].id));
}

#[test]
fn recent_of_small_store_returns_all() {
    let mut store = EventStore::new();
    assert!(get_recent_events(&store).is_empty());
    for _ in 0..3 {
        store.append(ev("a", "s", "k", "T"));
    }
    assert_eq!(ids(&store, 500), vec![1, 2, 3]);
    assert_eq!(ids(&store, 2), vec![2, 3]);
    assert_eq!(ids(&store, 0), Vec::<u64>::new());
}

#[test]
fn delete_session_removes_only_that_session() {
    let mut store = EventStore::new();
    store.append(ev("a", "s1", "k", "T"));
    store.append(ev("a", "s2", "k", "T"));
    store.append(ev("a", "s1", "k", "T"));
    store.append(ev("a", "s3", "k", "T"));
    let (status, note) = delete_session(&mut store, "s1".to_string());
    assert_eq!(status, STATUS_OK);
    assert!(matches!(note, Notification::SessionDeleted(ref s) if s == "s1"));
    let left = store.recent(10);
    assert_eq!(left.iter().map(|e| e.id).collect::<Vec<u64>>(), vec![2, 4]);
    assert!(left.iter().all(|e| e.session_id != "s1"));
    assert_eq!(store.next_id(), 5);
}

#[test]
fn delete_missing_session_changes_nothing() {
    let mut store = EventStore::new();
    store.append(ev("a", "s1", "k", "T"));
    store.append(ev("a", "s2", "k", "T"));
    let (status, _) = delete_session(&mut store, "nope".to_string());
    assert_eq!(status, 200);
    assert_eq!(ids(&store, 10), vec![1, 2]);
}

#[test]
fn clear_resets_ids() {
    let mut store = EventStore::new();
    for _ in 0..5 {
        store.append(ev("a", "s", "k", "T"));
    }
    let (status, note) = clear_events(&mut store);
    assert_eq!(status, STATUS_OK);
    assert!(matches!(note, Notification::EventsCleared));
    assert_eq!(store.len(), 0);
    let r = store.append(ev("a", "s", "k", "T"));
    assert_eq!(r.id, 1);
    assert_eq!(store.len(), 1);
}

#[test]
fn health_replies_ok() {
    assert_eq!(health(), "OK");
}

#[test]
fn can_append_on_new_store() {
    let store = EventStore::new();
    assert!(store.can_append());
    assert_eq!(store.next_id(), 1);
}

#[test]
fn candidates_cover_preferred_and_range() {
    let c = port_candidates(PREFERRED_PORT, FALLBACK_FIRST, FALLBACK_LAST);
    assert_eq!(c, vec![4000, 4001, 4002, 4003, 4004, 4005, 4006, 4007, 4008, 4009, 4010]);
    assert_eq!(port_candidates(7, 5, 4), vec![7]);
    assert_eq!(port_candidates(1, 65535, 65535), vec![1, 65535]);
}

fn probes(free: &[u16]) -> Vec<(u16, bool)> {
    port_candidates(4000, 4001, 4010).into_iter().map(|p| (p, free.contains(&p))).collect()
}

#[test]
fn preferred_port_chosen_when_free() {
    assert_eq!(select_port(&probes(&[4000, 4002])), Some(4000));
}

#[test]
fn first_free_fallback_port_chosen() {
    assert_eq!(select_port(&probes(&[4003, 4007])), Some(4003));
}

#[test]
fn no_free_port_fails() {
    assert_eq!(select_port(&probes(&[])), None);
    assert_eq!(select_port(&Vec::new()), None);
}

#[test]
fn ingest_list_delete_scenario() {
    let mut store = EventStore::new();
    let (status, note) = receive_event(&mut store, ev("agent1", "s1", "tool_use", "T1"));
    assert_eq!(status, STATUS_CREATED);
    assert_eq!(status, 201);
    match note {
        Notification::Event(e) => assert_eq!(e.id, 1),
        _ => panic!("expected an event notice"),
    }
    let r = get_recent_events(&store);
    assert_eq!(r.len(), 1);
    assert_eq!(r[0].id, 1);
    assert_eq!(r[0].session_id, "s1");
    assert_eq!(r[0].source_app, "agent1");
    assert_eq!(r[0].hook_event_type, "tool_use");
    assert_eq!(r[0].timestamp, "T1");
    assert!(!r[0].created_at.is_empty());
    let (status, _) = delete_session(&mut store, "s1".to_string());
    assert_eq!(status, 200);
    assert!(get_recent_events(&store).is_empty());
}
