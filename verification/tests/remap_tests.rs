use storage_planner::remap::{
    fork_remap, fork_remap_with, import_remap, import_remap_with, strip_ids, ImportDraw, DatasetRef, LinkRef, NodeRef, PlacementRef, RefGraph,
    RemapError, SyncRef, VolumeRef,
};

fn s(x: &str) -> String {
    x.to_string()
}

fn home_lab() -> RefGraph {
    RefGraph {
        topology_id: s("t-1"),
        parent_id: None,
        tag: Some(s("current")),
        nodes: vec![NodeRef { id: s("n-1"), name: s("nas") }, NodeRef { id: s("n-2"), name: s("mini") }],
        volumes: vec![
            VolumeRef { id: s("v-1"), node_id: s("n-1"), name: s("tank") },
            VolumeRef { id: s("v-2"), node_id: s("n-2"), name: s("ssd") },
        ],
        datasets: vec![DatasetRef { id: s("d-1"), name: s("photos") }],
        placements: vec![PlacementRef { id: s("p-1"), dataset_id: s("d-1"), volume_id: s("v-1") }],
        links: vec![LinkRef { id: s("l-1"), source_node_id: s("n-1"), target_node_id: s("n-2") }],
        syncs: vec![SyncRef { id: s("s-1"), dataset_id: s("d-1"), source_volume_id: s("v-1"), target_volume_id: s("v-2") }],
    }
}

fn node_ids(g: &RefGraph) -> Vec<String> {
    g.nodes.iter().map(|n| n.id.clone()).collect()
}

fn volume_ids(g: &RefGraph) -> Vec<String> {
    g.volumes.iter().map(|n| n.id.clone()).collect()
}

fn is_v4_text(u: &str) -> bool {
    let cs: Vec<char> = u.chars().collect();
    cs.len() == 36
        && cs.iter().enumerate().all(|(i, c)| {
            if i == 8 || i == 13 || i == 18 || i == 23 {
                *c == '-'
            } else {
                c.is_ascii_hexdigit() && !c.is_ascii_uppercase()
            }
        })
        && cs[14] == '4'
        && "89ab".contains(cs[19])
}

#[test]
fn fresh_ids_are_v4_uuids() {
    let g = home_lab();
    let a = fork_remap(&g).unwrap();
    let b = fork_remap(&g).unwrap();
    assert!(is_v4_text(&a.topology_id));
    assert!(a.nodes.iter().all(|n| is_v4_text(&n.id)));
    assert_ne!(a.topology_id, b.topology_id);
    assert_ne!(a.topology_id, g.topology_id);
}

#[test]
fn test_export_import_identity_entity_counts() {
    let out = import_remap(&home_lab()).unwrap();
    assert_eq!(out.nodes.len(), 2);
    assert_eq!(out.volumes.len(), 2);
    assert_eq!(out.datasets.len(), 1);
    assert_eq!(out.placements.len(), 1);
    assert_eq!(out.links.len(), 1);
    assert_eq!(out.syncs.len(), 1);
}

#[test]
fn test_export_import_generates_new_topology_id() {
    let g = home_lab();
    let out = import_remap(&g).unwrap();
    assert_ne!(out.topology_id, g.topology_id);
}

#[test]
fn test_export_import_generates_new_node_ids() {
    let g = home_lab();
    let out = import_remap(&g).unwrap();
    let ids = node_ids(&out);
    assert!(!ids.contains(&s("n-1")));
    assert!(!ids.contains(&s("n-2")));
    assert_eq!(out.nodes[0].name, "nas");
}

#[test]
fn test_fk_integrity_placement_dataset_and_volume() {
    let out = import_remap(&home_lab()).unwrap();
    assert_eq!(out.placements[0].dataset_id, out.datasets[0].id);
    assert!(volume_ids(&out).contains(&out.placements[0].volume_id));
    assert_eq!(out.placements[0].volume_id, out.volumes[0].id);
}

#[test]
fn test_fk_integrity_sync_regime_volumes() {
    let out = import_remap(&home_lab()).unwrap();
    assert_eq!(out.syncs[0].source_volume_id, out.volumes[0].id);
    assert_eq!(out.syncs[0].target_volume_id, out.volumes[1].id);
    assert_eq!(out.volumes[1].node_id, out.nodes[1].id);
    assert_eq!(out.links[0].source_node_id, out.nodes[0].id);
}

#[test]
fn test_template_export_strips_ids() {
    let mut g = home_lab();
    strip_ids(&mut g);
    assert!(g.topology_id.is_empty());
    for n in &g.nodes {
        assert!(n.id.is_empty());
    }
    for v in &g.volumes {
        assert!(v.id.is_empty());
        assert!(v.node_id.is_empty());
    }
    for d in &g.datasets {
        assert!(d.id.is_empty());
    }
    assert_eq!(g.nodes[0].name, "nas");
    assert_eq!(g.parent_id, None);
    assert_eq!(g.tag, None);
}

#[test]
fn stripping_twice_changes_nothing() {
    let mut g = home_lab();
    strip_ids(&mut g);
    let once = format!("{:?}", g);
    strip_ids(&mut g);
    assert_eq!(format!("{:?}", g), once);
}

#[test]
fn test_template_import_generates_independent_ids() {
    let mut g = RefGraph {
        topology_id: s("t"),
        parent_id: Some(s("p")),
        tag: Some(s("exploring")),
        nodes: vec![NodeRef { id: s("n"), name: s("server") }],
        volumes: vec![],
        datasets: vec![DatasetRef { id: s("d"), name: s("docs") }],
        placements: vec![],
        links: vec![],
        syncs: vec![],
    };
    strip_ids(&mut g);
    let a = import_remap(&g).unwrap();
    let b = import_remap(&g).unwrap();
    assert_ne!(a.topology_id, b.topology_id);
    assert_eq!(a.nodes.len(), 1);
    assert_eq!(a.datasets.len(), 1);
    assert_ne!(a.nodes[0].id, b.nodes[0].id);
}

#[test]
fn template_with_a_volume_imports_onto_its_node() {
    let mut g = RefGraph {
        topology_id: s("t"),
        parent_id: None,
        tag: None,
        nodes: vec![NodeRef { id: s("n"), name: s("nas") }],
        volumes: vec![VolumeRef { id: s("v"), node_id: s("n"), name: s("pool") }],
        datasets: vec![DatasetRef { id: s("d"), name: s("docs") }],
        placements: vec![PlacementRef { id: s("p"), dataset_id: s("d"), volume_id: s("v") }],
        links: vec![],
        syncs: vec![],
    };
    strip_ids(&mut g);
    let out = import_remap(&g).unwrap();
    assert_eq!(out.nodes.len(), 1);
    assert_eq!(out.volumes.len(), 1);
    assert_eq!(out.datasets.len(), 1);
    assert_eq!(out.volumes[0].name, "pool");
    assert!(is_v4_text(&out.nodes[0].id));
    assert_eq!(out.volumes[0].node_id, out.nodes[0].id);
    assert_eq!(out.placements[0].dataset_id, out.datasets[0].id);
    assert_eq!(out.placements[0].volume_id, out.volumes[0].id);
    assert_ne!(out.placements[0].id, out.volumes[0].id);
}

#[test]
fn template_with_several_nodes_cannot_place_its_volumes() {
    let mut g = home_lab();
    strip_ids(&mut g);
    match import_remap(&g) {
        Err(RemapError::CannotRemap { id, fallback }) => {
            assert_eq!(id, "");
            assert_eq!(fallback, "");
        },
        other => panic!("unexpected {:?}", other),
    }
}

#[test]
fn blank_reference_takes_the_sole_name_key_as_fallback() {
    let mut g = RefGraph {
        topology_id: s("t"),
        parent_id: None,
        tag: None,
        nodes: vec![NodeRef { id: s("n"), name: s("nas") }],
        volumes: vec![VolumeRef { id: s("v"), node_id: s("n"), name: s("pool") }],
        datasets: vec![DatasetRef { id: s("d1"), name: s("docs") }, DatasetRef { id: s("d2"), name: s("media") }],
        placements: vec![PlacementRef { id: s("p"), dataset_id: s("d1"), volume_id: s("v") }],
        links: vec![],
        syncs: vec![],
    };
    strip_ids(&mut g);
    match import_remap(&g) {
        Err(RemapError::CannotRemap { id, fallback }) => {
            assert_eq!(id, "");
            assert_eq!(fallback, "");
        },
        other => panic!("unexpected {:?}", other),
    }
}

#[test]
fn identity_reference_ignores_the_sole_entity() {
    let g = RefGraph {
        topology_id: s("t"),
        parent_id: None,
        tag: None,
        nodes: vec![NodeRef { id: s("n"), name: s("nas") }],
        volumes: vec![VolumeRef { id: s("v"), node_id: s("gone"), name: s("pool") }],
        datasets: vec![],
        placements: vec![],
        links: vec![],
        syncs: vec![],
    };
    match import_remap(&g) {
        Err(RemapError::CannotRemap { id, fallback }) => {
            assert_eq!(id, "gone");
            assert_eq!(fallback, "");
        },
        other => panic!("unexpected {:?}", other),
    }
}

#[test]
fn fork_copies_with_fresh_ids() {
    let g = home_lab();
    let out = fork_remap(&g).unwrap();
    assert_eq!(out.nodes.len(), 2);
    assert!(!node_ids(&out).contains(&s("n-1")));
    assert_eq!(out.volumes[0].node_id, out.nodes[0].id);
    assert_eq!(out.links[0].target_node_id, out.nodes[1].id);
    assert_eq!(out.syncs[0].target_volume_id, out.volumes[1].id);
    assert_eq!(out.parent_id, Some(s("t-1")));
    assert_eq!(out.tag, None);
}

fn v(xs: &[&str]) -> Vec<String> {
    xs.iter().map(|x| x.to_string()).collect()
}

#[test]
fn fork_with_given_ids() {
    let g = home_lab();
    let out = fork_remap_with(
        &g,
        s("T"),
        &v(&["N1", "N2"]),
        &v(&["V1", "V2"]),
        &v(&["D1"]),
        &v(&["P1"]),
        &v(&["L1"]),
        &v(&["S1"]),
    )
    .unwrap();
    assert_eq!(out.topology_id, "T");
    assert_eq!(node_ids(&out), v(&["N1", "N2"]));
    assert_eq!(volume_ids(&out), v(&["V1", "V2"]));
    assert_eq!(out.volumes[1].node_id, "N2");
    assert_eq!(out.datasets[0].id, "D1");
    assert_eq!(out.placements[0].id, "P1");
    assert_eq!(out.placements[0].dataset_id, "D1");
    assert_eq!(out.placements[0].volume_id, "V1");
    assert_eq!(out.links[0].id, "L1");
    assert_eq!(out.links[0].source_node_id, "N1");
    assert_eq!(out.syncs[0].id, "S1");
    assert_eq!(out.syncs[0].target_volume_id, "V2");
    assert_eq!(out.parent_id, Some(s("t-1")));
}

#[test]
fn import_with_given_ids() {
    let g = home_lab();
    let draw = ImportDraw {
        topology: s("T"),
        nodes: v(&["N1", "N2"]),
        volumes: v(&["V1", "V2"]),
        datasets: v(&["D1"]),
        placements: v(&["P1"]),
        links: v(&["L1"]),
        syncs: v(&["S1"]),
        stored_placements: v(&["P9"]),
        stored_links: v(&["L9"]),
        stored_syncs: v(&["S9"]),
    };
    let out = import_remap_with(&g, &draw).unwrap();
    assert_eq!(out.topology_id, "T");
    assert_eq!(node_ids(&out), v(&["N1", "N2"]));
    assert_eq!(volume_ids(&out), v(&["V1", "V2"]));
    assert_eq!(out.volumes[0].node_id, "N1");
    assert_eq!(out.placements[0].id, "P9");
    assert_eq!(out.placements[0].dataset_id, "D1");
    assert_eq!(out.links[0].id, "L9");
    assert_eq!(out.links[0].target_node_id, "N2");
    assert_eq!(out.syncs[0].id, "S9");
    assert_eq!(out.syncs[0].source_volume_id, "V1");
    assert_eq!(out.parent_id, None);
    assert_eq!(out.tag, None);
}

#[test]
fn fork_refuses_dangling_reference() {
    let mut g = home_lab();
    g.volumes[0].node_id = s("missing");
    assert!(matches!(fork_remap(&g), Err(RemapError::MissingReference { .. })));
}

#[test]
fn import_success_does_not_depend_on_the_draw() {
    let good = home_lab();
    let mut dangling = home_lab();
    dangling.links[0].target_node_id = s("n-9");
    for _ in 0..5 {
        assert!(import_remap(&good).is_ok());
        match import_remap(&dangling) {
            Err(RemapError::CannotRemap { id, fallback }) => {
                assert_eq!(id, "n-9");
                assert_eq!(fallback, "");
            },
            other => panic!("unexpected {:?}", other),
        }
    }
}
