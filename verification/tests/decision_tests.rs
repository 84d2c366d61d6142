use storage_planner::decision::{
    consider, constraint_unit, parse_status_filter, unconsider, validate_constraint_type, Decision, DecisionError,
    DecisionStatus,
};

fn open_decision() -> Decision {
    let d = Decision::new("Storage upgrade");
    d.apply_update(None, None, true, false).unwrap()
}

#[test]
fn new_decision_is_a_draft() {
    let d = Decision::new("Storage upgrade");
    assert_eq!(d.title, "Storage upgrade");
    assert!(matches!(d.status, DecisionStatus::Draft));
    assert_eq!(d.status.name(), "draft");
    assert!(d.closed_at.is_none());
    assert_eq!(d.id.len(), 36);
    assert_eq!(d.created_at, d.updated_at);
}

#[test]
fn update_requires_something_to_change() {
    assert!(matches!(Decision::check_update_request(None, None, false), Err(DecisionError::NothingToUpdate)));
    assert!(Decision::check_update_request(Some("x"), None, false).is_ok());
    assert!(Decision::check_update_request(None, None, true).is_ok());
}

#[test]
fn update_opens_a_draft_and_renames() {
    let d = Decision::new("Old");
    let u = d.apply_update(Some("New"), Some("desc"), true, false).unwrap();
    assert_eq!(u.title, "New");
    assert_eq!(u.description, "desc");
    assert!(matches!(u.status, DecisionStatus::Open));
    assert_eq!(u.id, d.id);
}

#[test]
fn update_refuses_taken_title_and_reopening() {
    let d = Decision::new("Old");
    match d.apply_update(Some("Taken"), None, false, true) {
        Err(DecisionError::TitleExists(t)) => assert_eq!(t, "Taken"),
        other => panic!("unexpected {:?}", other),
    }
    // Keeping the same title is no rename, even when that title is "taken" by itself.
    assert!(d.apply_update(Some("Old"), None, false, true).is_ok());
    let open = open_decision();
    match open.apply_update(None, None, true, false) {
        Err(DecisionError::CannotOpen { title, status }) => {
            assert_eq!(title, "Storage upgrade");
            assert_eq!(status, "open");
        },
        other => panic!("unexpected {:?}", other),
    }
}

#[test]
fn choose_requires_open_and_considered() {
    let draft = Decision::new("D");
    let considered = vec!["topo-1".to_string()];
    match draft.choose_topology_at(&considered, "topo-1".to_string(), "r".to_string(), "{}".to_string(), "t".to_string()) {
        Err(DecisionError::CannotChoose { status }) => assert_eq!(status, "draft"),
        other => panic!("unexpected {:?}", other),
    }
    let open = open_decision();
    match open.choose_topology_at(&considered, "topo-2".to_string(), "r".to_string(), "{}".to_string(), "t".to_string()) {
        Err(DecisionError::NotConsidered { topology_id }) => assert_eq!(topology_id, "topo-2"),
        other => panic!("unexpected {:?}", other),
    }
    let decided = open
        .choose_topology_at(&considered, "topo-1".to_string(), "cheapest".to_string(), "{}".to_string(), "2024-01-01T00:00:00Z".to_string())
        .unwrap();
    assert!(matches!(decided.status, DecisionStatus::Decided));
    assert_eq!(decided.chosen_topology_id.as_deref(), Some("topo-1"));
    assert_eq!(decided.rationale.as_deref(), Some("cheapest"));
    assert_eq!(decided.closed_at.as_deref(), Some("2024-01-01T00:00:00Z"));
    assert_eq!(decided.snapshot.as_deref(), Some("{}"));
}

#[test]
fn reopen_after_choose_clears_the_choice() {
    let open = open_decision();
    let considered = vec!["topo-1".to_string()];
    let decided = open
        .choose_topology_at(&considered, "topo-1".to_string(), "why".to_string(), "{}".to_string(), "t1".to_string())
        .unwrap();
    let reopened = decided.reopen_at("t2".to_string()).unwrap();
    assert!(matches!(reopened.status, DecisionStatus::Open));
    assert!(reopened.chosen_topology_id.is_none());
    assert!(reopened.rationale.is_none());
    assert!(reopened.closed_at.is_none());
    assert_eq!(reopened.title, open.title);
    assert_eq!(reopened.id, open.id);
    assert_eq!(reopened.updated_at, "t2");
}

#[test]
fn abandon_rules() {
    let draft = Decision::new("D");
    let abandoned = draft.abandon_at(Some("budget".to_string()), "{}".to_string(), "t".to_string()).unwrap();
    assert!(matches!(abandoned.status, DecisionStatus::Abandoned));
    assert_eq!(abandoned.rationale.as_deref(), Some("budget"));
    assert!(abandoned.closed_at.is_some());
    assert!(matches!(
        abandoned.abandon_at(None, "{}".to_string(), "t".to_string()),
        Err(DecisionError::AlreadyAbandoned { .. })
    ));
    let open = open_decision();
    let decided = open
        .choose_topology_at(&vec!["a".to_string()], "a".to_string(), "r".to_string(), "{}".to_string(), "t".to_string())
        .unwrap();
    assert!(matches!(decided.abandon_at(None, "{}".to_string(), "t".to_string()), Err(DecisionError::AlreadyDecided { .. })));
    let mut odd = Decision::new("D");
    odd.status = DecisionStatus::Other("weird".to_string());
    match odd.abandon_at(None, "{}".to_string(), "t".to_string()) {
        Err(DecisionError::CannotAbandon { status }) => assert_eq!(status, "weird"),
        other => panic!("unexpected {:?}", other),
    }
}

#[test]
fn reopen_refuses_active_decisions() {
    let draft = Decision::new("D");
    match draft.reopen_at("t".to_string()) {
        Err(DecisionError::AlreadyActive { title, status }) => {
            assert_eq!(title, "D");
            assert_eq!(status, "draft");
        },
        other => panic!("unexpected {:?}", other),
    }
}

#[test]
fn clock_variants_stamp_the_update_time() {
    let open = open_decision();
    let decided = open
        .choose_topology(&vec!["a".to_string()], "a".to_string(), "r".to_string(), "{}".to_string())
        .unwrap();
    assert_eq!(decided.closed_at.as_deref(), Some(decided.updated_at.as_str()));
    let reopened = decided.reopen().unwrap();
    assert!(reopened.closed_at.is_none());
    let abandoned = reopened.abandon(None, "{}".to_string()).unwrap();
    assert!(abandoned.closed_at.is_some());
}

#[test]
fn consider_then_unconsider_restores_the_set() {
    let mut set = vec!["a".to_string(), "b".to_string()];
    consider(&mut set, "c".to_string(), "D").unwrap();
    assert_eq!(set, vec!["a", "b", "c"]);
    match consider(&mut set, "a".to_string(), "D") {
        Err(DecisionError::AlreadyConsidered { topology_id, title }) => {
            assert_eq!(topology_id, "a");
            assert_eq!(title, "D");
        },
        other => panic!("unexpected {:?}", other),
    }
    unconsider(&mut set, "c", "D").unwrap();
    assert_eq!(set, vec!["a", "b"]);
    assert!(matches!(unconsider(&mut set, "z", "D"), Err(DecisionError::NotUnderConsideration { .. })));
    assert_eq!(set, vec!["a", "b"]);
}

#[test]
fn constraint_types_and_units() {
    assert!(validate_constraint_type("budget").is_ok());
    assert!(validate_constraint_type("rack_units").is_ok());
    assert!(matches!(validate_constraint_type("weight"), Err(DecisionError::InvalidConstraintType(t)) if t == "weight"));
    assert_eq!(constraint_unit("budget"), "");
    assert_eq!(constraint_unit("noise"), " dB");
    assert_eq!(constraint_unit("power"), " W");
    assert_eq!(constraint_unit("rack_units"), " U");
    assert_eq!(constraint_unit("other"), "");
}

#[test]
fn status_filter() {
    assert!(matches!(parse_status_filter("decided"), Ok(DecisionStatus::Decided)));
    assert!(matches!(parse_status_filter("closed"), Err(DecisionError::InvalidStatus(s)) if s == "closed"));
    assert!(matches!(DecisionStatus::from_name("abandoned"), DecisionStatus::Abandoned));
    assert_eq!(DecisionStatus::from_name("x").name(), "x");
}
