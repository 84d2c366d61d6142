use storage_planner::events::{entity_table_name, EventSource};

#[test]
fn test_event_source_display() {
    assert_eq!(EventSource::User.to_string(), "user");
    assert_eq!(EventSource::Agent.to_string(), "agent");
    assert_eq!(EventSource::Import.to_string(), "import");
    assert_eq!(EventSource::Migration.to_string(), "migration");
}

#[test]
fn test_event_source_from_str() {
    assert!(matches!("user".parse::<EventSource>().unwrap(), EventSource::User));
    assert!(matches!("Agent".parse::<EventSource>().unwrap(), EventSource::Agent));
    assert!("invalid".parse::<EventSource>().is_err());
}

#[test]
fn test_entity_table_name() {
    assert_eq!(entity_table_name("topology").unwrap(), "topologies");
    assert_eq!(entity_table_name("node").unwrap(), "nodes");
    assert_eq!(entity_table_name("volume").unwrap(), "volumes");
    assert_eq!(entity_table_name("dataset").unwrap(), "datasets");
    assert_eq!(entity_table_name("placement").unwrap(), "placements");
    assert_eq!(entity_table_name("link").unwrap(), "links");
    assert_eq!(entity_table_name("sync_regime").unwrap(), "sync_regimes");
    assert_eq!(entity_table_name("decision").unwrap(), "decisions");
    assert_eq!(entity_table_name("decision_constraint").unwrap(), "decision_constraints");
    assert_eq!(entity_table_name("decision_topology").unwrap(), "decision_topologies");
    assert_eq!(entity_table_name("catalog_item").unwrap(), "catalog_items");
    assert_eq!(entity_table_name("price").unwrap(), "prices");
    assert!(entity_table_name("unknown").is_err());
}

use storage_planner::events::{EntityAction, EventError, EventLog};

fn record_created(log: &mut EventLog, id: &str, summary: &str) {
    log.record(
        "topology.created",
        "topology",
        id,
        summary,
        None,
        Some("{\"name\":\"t\"}"),
        &EventSource::User,
        "tester",
    );
}

#[test]
fn test_record_event() {
    let mut log = EventLog::new();
    let event = log.record(
        "topology.created",
        "topology",
        "11111111-2222-4333-8444-555555555555",
        "Created topology 'test-topo'",
        None,
        Some("{\"name\":\"test-topo\"}"),
        &EventSource::User,
        "tester",
    );
    assert_eq!(event.sequence, 1);
    assert_eq!(event.event_type, "topology.created");
    assert_eq!(event.entity_type, "topology");
    assert_eq!(event.entity_id, "11111111-2222-4333-8444-555555555555");
    assert!(event.before_state.is_none());
    assert!(event.after_state.is_some());
    assert_eq!(event.source, "user");
    assert_eq!(log.pointer, 1);
}

#[test]
fn test_undo_create() {
    let mut log = EventLog::new();
    record_created(&mut log, "topo-a", "Created topology 'undo-test'");
    let out = log.undo(false).unwrap();
    assert_eq!(out.summary, "Created topology 'undo-test'");
    assert_eq!(
        out.action,
        EntityAction::Delete { entity_type: "topology".to_string(), entity_id: "topo-a".to_string() }
    );
    assert_eq!(log.pointer, 0);
}

#[test]
fn test_redo_after_undo() {
    let mut log = EventLog::new();
    record_created(&mut log, "topo-a", "Created topology 'redo-test'");
    log.undo(false).unwrap();
    let out = log.redo(false).unwrap();
    assert_eq!(out.summary, "Created topology 'redo-test'");
    assert_eq!(
        out.action,
        EntityAction::Insert { entity_type: "topology".to_string(), state: "{\"name\":\"t\"}".to_string() }
    );
    assert_eq!(log.pointer, 1);
}

#[test]
fn test_multi_level_undo() {
    let mut log = EventLog::new();
    for i in 1..=3 {
        record_created(&mut log, &format!("id-{}", i), &format!("Created topology 'topo-{}'", i));
    }
    assert_eq!(log.events.len(), 3);
    assert_eq!(log.undo(false).unwrap().summary, "Created topology 'topo-3'");
    assert_eq!(log.undo(false).unwrap().summary, "Created topology 'topo-2'");
    assert_eq!(log.undo(false).unwrap().summary, "Created topology 'topo-1'");
    assert_eq!(log.pointer, 0);
    assert_eq!(log.redo(false).unwrap().summary, "Created topology 'topo-1'");
    assert_eq!(log.redo(false).unwrap().summary, "Created topology 'topo-2'");
    assert_eq!(log.redo(false).unwrap().summary, "Created topology 'topo-3'");
    assert_eq!(log.pointer, 3);
}

#[test]
fn test_redo_stack_cleared() {
    let mut log = EventLog::new();
    for i in 1..=2 {
        record_created(&mut log, &format!("id-{}", i), &format!("Created topology 'topo-{}'", i));
    }
    log.undo(false).unwrap();
    record_created(&mut log, "id-3", "Created topology 'topo-3'");
    assert!(matches!(log.redo(false), Err(EventError::NothingToRedo)));
    assert_eq!(log.events.len(), 2);
    assert_eq!(log.events[1].summary, "Created topology 'topo-3'");
    assert_eq!(log.events[1].sequence, 2);
}

#[test]
fn test_undo_nothing() {
    let mut log = EventLog::new();
    assert!(matches!(log.undo(false), Err(EventError::NothingToUndo)));
}

#[test]
fn test_redo_nothing() {
    let mut log = EventLog::new();
    assert!(matches!(log.redo(false), Err(EventError::NothingToRedo)));
}

#[test]
fn undo_of_update_and_delete_restores_before_state() {
    let mut log = EventLog::new();
    log.record("node.updated", "node", "n1", "Updated node", Some("{\"v\":1}"), Some("{\"v\":2}"), &EventSource::Agent, "a");
    log.record("node.deleted", "node", "n1", "Deleted node", Some("{\"v\":2}"), None, &EventSource::User, "a");
    let d = log.undo(false).unwrap();
    assert_eq!(d.action, EntityAction::Insert { entity_type: "node".to_string(), state: "{\"v\":2}".to_string() });
    let u = log.undo(false).unwrap();
    assert_eq!(u.action, EntityAction::Update { entity_type: "node".to_string(), state: "{\"v\":1}".to_string() });
    let r = log.redo(false).unwrap();
    assert_eq!(r.action, EntityAction::Update { entity_type: "node".to_string(), state: "{\"v\":2}".to_string() });
    let r2 = log.redo(false).unwrap();
    assert_eq!(r2.action, EntityAction::Delete { entity_type: "node".to_string(), entity_id: "n1".to_string() });
}

#[test]
fn skip_moves_pointer_without_action() {
    let mut log = EventLog::new();
    record_created(&mut log, "x", "Created x");
    let out = log.undo(true).unwrap();
    assert_eq!(out.action, EntityAction::Skip);
    assert_eq!(log.pointer, 0);
    let out = log.redo(true).unwrap();
    assert_eq!(out.action, EntityAction::Skip);
    assert_eq!(log.pointer, 1);
}

#[test]
fn unknown_event_suffix_is_refused() {
    let mut log = EventLog::new();
    log.record("node.renamed", "node", "n1", "Renamed", None, None, &EventSource::User, "a");
    assert!(matches!(log.undo(false), Err(EventError::UnknownEventTypeSuffix(_))));
    assert_eq!(log.pointer, 1);
}

#[test]
fn from_parts_checks_sequence_and_pointer() {
    let mut log = EventLog::new();
    record_created(&mut log, "x", "Created x");
    let events = log.events.clone();
    assert!(EventLog::from_parts(events.clone(), 1).is_some());
    assert!(EventLog::from_parts(events.clone(), 2).is_none());
    assert!(EventLog::from_parts(events, -1).is_none());
}
