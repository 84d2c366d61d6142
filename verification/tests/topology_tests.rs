use storage_planner::topology::{
    check_new_name, check_update_request, generate_fork_name, initial_tag, set_active, tag_topology,
    untag_topology, validate_tag, TopologyError, TopologyTag,
};

fn tags(v: &[Option<&str>]) -> Vec<TopologyTag> {
    v.iter()
        .enumerate()
        .map(|(i, t)| TopologyTag { id: format!("id{}", i), tag: t.map(|s| s.to_string()) })
        .collect()
}

fn current_count(ts: &[TopologyTag]) -> usize {
    ts.iter().filter(|t| t.tag.as_deref() == Some("current")).count()
}

#[test]
fn tagging_current_moves_the_tag() {
    let mut ts = tags(&[Some("current"), None, Some("archived")]);
    tag_topology(&mut ts, 1, "current").unwrap();
    assert_eq!(ts[0].tag, None);
    assert_eq!(ts[1].tag.as_deref(), Some("current"));
    assert_eq!(ts[2].tag.as_deref(), Some("archived"));
    assert_eq!(current_count(&ts), 1);
}

#[test]
fn tagging_other_keeps_current() {
    let mut ts = tags(&[Some("current"), None]);
    tag_topology(&mut ts, 1, "exploring").unwrap();
    assert_eq!(ts[0].tag.as_deref(), Some("current"));
    assert_eq!(ts[1].tag.as_deref(), Some("exploring"));
}

#[test]
fn invalid_tag_is_refused() {
    let mut ts = tags(&[None]);
    assert!(matches!(tag_topology(&mut ts, 0, "live"), Err(TopologyError::InvalidTag(t)) if t == "live"));
    assert_eq!(ts[0].tag, None);
    assert!(validate_tag("archived").is_ok());
}

#[test]
fn set_active_and_untag() {
    let mut ts = tags(&[Some("current"), Some("exploring")]);
    assert!(matches!(set_active(&mut ts, 0), Err(TopologyError::AlreadyCurrent)));
    set_active(&mut ts, 1).unwrap();
    assert_eq!(ts[0].tag, None);
    assert_eq!(ts[1].tag.as_deref(), Some("current"));
    assert_eq!(untag_topology(&mut ts, 1).unwrap(), "current");
    assert!(matches!(untag_topology(&mut ts, 1), Err(TopologyError::NoTag)));
}

#[test]
fn first_topology_is_current() {
    assert_eq!(initial_tag(0).as_deref(), Some("current"));
    assert_eq!(initial_tag(3), None);
}

#[test]
fn fork_names() {
    let taken = vec!["lab".to_string(), "lab-fork-1".to_string(), "lab-fork-2".to_string()];
    assert_eq!(generate_fork_name("lab", &taken).unwrap(), "lab-fork-3");
    assert_eq!(generate_fork_name("other", &taken).unwrap(), "other-fork-1");
    let all: Vec<String> = (1..100).map(|n| format!("x-fork-{}", n)).collect();
    assert!(matches!(generate_fork_name("x", &all), Err(TopologyError::NoForkName(s)) if s == "x"));
}

#[test]
fn new_names_and_updates() {
    assert!(check_new_name("my-fork", false).is_ok());
    assert!(matches!(check_new_name("my fork", false), Err(TopologyError::InvalidName(_))));
    assert!(matches!(check_new_name("my-fork", true), Err(TopologyError::NameTaken(n)) if n == "my-fork"));
    assert!(matches!(check_update_request(None, None), Err(TopologyError::NothingToUpdate)));
    assert!(matches!(check_update_request(None, Some("bad name")), Err(TopologyError::InvalidName(_))));
    assert!(check_update_request(Some("desc"), None).is_ok());
}
