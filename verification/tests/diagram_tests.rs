use storage_planner::diagram::{
    dataset_detail, join_with_comma, link_label, network_lines, node_detail, node_short, tree_lines, volume_detail,
    NetworkLink, NetworkNode, NodeBranch, VolumeBranch,
};
use storage_planner::lineage::{ancestry_lead, lineage_lines, LineageEntry};

fn s(x: &str) -> String {
    x.to_string()
}

#[test]
fn comma_join() {
    assert_eq!(join_with_comma(&vec![]), "");
    assert_eq!(join_with_comma(&vec![s("a")]), "a");
    assert_eq!(join_with_comma(&vec![s("a"), s("b"), s("c")]), "a, b, c");
}

#[test]
fn node_labels() {
    assert_eq!(node_detail("nas", "server", "closet"), "nas (server, closet)");
    assert_eq!(node_detail("nas", "", "closet"), "nas (closet)");
    assert_eq!(node_detail("nas", "server", ""), "nas (server)");
    assert_eq!(node_detail("nas", "", ""), "nas");
    assert_eq!(node_short("nas", "closet"), "nas (closet)");
    assert_eq!(node_short("nas", ""), "nas");
}

#[test]
fn volume_and_dataset_labels() {
    assert_eq!(volume_detail("tank", "8.0TB", &Some(s("zfs")), &Some(s("raidz1"))), "tank [8.0TB, zfs, raidz1]");
    assert_eq!(volume_detail("tank", "8.0TB", &Some(s("")), &None), "tank [8.0TB]");
    assert_eq!(volume_detail("tank", "8.0TB", &None, &Some(s("mirror"))), "tank [8.0TB, mirror]");
    assert_eq!(dataset_detail("photos", "2.0TB", "critical", "primary"), "photos (2.0TB, critical)");
    assert_eq!(dataset_detail("photos", "2.0TB", "critical", "backup"), "photos (backup)");
}

#[test]
fn tree_of_nodes_volumes_datasets() {
    let nodes = vec![
        NodeBranch {
            detail: s("mac-mini (desktop)"),
            volumes: vec![VolumeBranch { detail: s("internal [1.0TB]"), datasets: vec![s("photos (backup)")] }],
        },
        NodeBranch {
            detail: s("nas (server)"),
            volumes: vec![
                VolumeBranch { detail: s("tank [8.0TB]"), datasets: vec![s("photos (2.0TB, critical)"), s("media (backup)")] },
                VolumeBranch { detail: s("scratch [1.0TB]"), datasets: vec![] },
            ],
        },
    ];
    let lines = tree_lines("home-lab", &nodes);
    let expected = vec![
        "home-lab",
        "\u{251c}\u{2500}\u{2500} mac-mini (desktop)",
        "\u{2502}   \u{2514}\u{2500}\u{2500} internal [1.0TB]",
        "\u{2502}       \u{2514}\u{2500}\u{2500} photos (backup)",
        "\u{2514}\u{2500}\u{2500} nas (server)",
        "    \u{251c}\u{2500}\u{2500} tank [8.0TB]",
        "    \u{2502}   \u{251c}\u{2500}\u{2500} photos (2.0TB, critical)",
        "    \u{2502}   \u{2514}\u{2500}\u{2500} media (backup)",
        "    \u{2514}\u{2500}\u{2500} scratch [1.0TB]",
    ];
    assert_eq!(lines, expected);
}

#[test]
fn tree_without_nodes() {
    assert_eq!(tree_lines("empty", &vec![]), vec!["empty", "  (no nodes)"]);
}

#[test]
fn network_of_links() {
    let nodes = vec![
        NetworkNode { id: s("n1"), name: s("mac-mini"), location: s("") },
        NetworkNode { id: s("n2"), name: s("nas"), location: s("closet") },
    ];
    let links = vec![
        NetworkLink { source_node_id: s("n1"), target_node_id: s("n2"), label: link_label("ethernet", &Some(s("1GB/s"))) },
        NetworkLink { source_node_id: s("n2"), target_node_id: s("gone"), label: link_label("usb", &None) },
    ];
    let lines = network_lines("home-lab", &nodes, &links);
    let expected = vec![
        "Network Topology: home-lab",
        "",
        "mac-mini \u{2500}\u{2500}[ethernet, 1GB/s]\u{2500}\u{2500}> nas (closet)",
        "nas (closet) \u{2500}\u{2500}[usb]\u{2500}\u{2500}> ?",
        "",
        "Nodes: 2  Links: 2",
    ];
    assert_eq!(lines, expected);
}

#[test]
fn network_without_links() {
    let lines = network_lines("solo", &vec![], &vec![]);
    assert_eq!(lines, vec!["Network Topology: solo", "", "No network links defined", "", "Nodes: 0  Links: 0"]);
}

fn entry(id: &str, parent: Option<&str>) -> LineageEntry {
    LineageEntry { id: s(id), parent_id: parent.map(s) }
}

#[test]
fn lineage_tree_of_forks() {
    // Listed by name: base, base-fork-1, base-fork-1-fork-1, base-fork-2, other.
    let es = vec![
        entry("a", None),
        entry("b", Some("a")),
        entry("c", Some("b")),
        entry("e", Some("a")),
        entry("d", None),
    ];
    let lines: Vec<(String, usize)> = lineage_lines(&es).into_iter().map(|l| (l.lead, l.index)).collect();
    assert_eq!(
        lines,
        vec![(s(""), 0), (s("+-- "), 1), (s("|   +-- "), 2), (s("+-- "), 3), (s(""), 4)]
    );
}

#[test]
fn lineage_skips_topologies_with_a_missing_parent() {
    let es = vec![entry("a", None), entry("b", Some("zzz"))];
    let lines: Vec<usize> = lineage_lines(&es).into_iter().map(|l| l.index).collect();
    assert_eq!(lines, vec![0]);
}

#[test]
fn ancestry_leads() {
    assert_eq!(ancestry_lead(0), "");
    assert_eq!(ancestry_lead(1), "    +-- ");
    assert_eq!(ancestry_lead(2), "        +-- ");
}

#[test]
fn lineage_draws_the_deepest_chain() {
    // Each topology forked from the one before: the chain is as deep as
    // the list is long, and every topology is drawn.
    let es = vec![
        entry("a", None),
        entry("b", Some("a")),
        entry("c", Some("b")),
        entry("d", Some("c")),
        entry("e", Some("d")),
    ];
    let lines: Vec<(String, usize)> = lineage_lines(&es).into_iter().map(|l| (l.lead, l.index)).collect();
    assert_eq!(
        lines,
        vec![
            (s(""), 0),
            (s("+-- "), 1),
            (s("    +-- "), 2),
            (s("        +-- "), 3),
            (s("            +-- "), 4),
        ]
    );
}
