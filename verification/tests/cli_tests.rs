use storage_planner::cli::{Cli, Commands, OutputFormat};
use storage_planner::export::{import_name, ExportSections, ImportError};
use storage_planner::resolve::{resolve_active, resolve_pick, resolve_volume_pick, Pick, ResolveError};

fn cli(dir: Option<&str>) -> Cli {
    Cli { dir: dir.map(|d| d.to_string()), format: OutputFormat::default_format(), command: Commands::Status }
}

#[test]
fn database_location() {
    assert_eq!(cli(None).db_dir(), ".sp");
    assert_eq!(cli(None).db_path(), ".sp/decisions.db");
    assert_eq!(cli(Some("/tmp/plan")).db_path(), "/tmp/plan/decisions.db");
    assert_eq!(cli(Some("/tmp/plan/")).db_path(), "/tmp/plan/decisions.db");
}

#[test]
fn export_only_list() {
    let all = ExportSections::from_only(None);
    assert!(all.nodes && all.sync_regimes);
    let some = ExportSections::from_only(Some("nodes, links ,sync_regimes"));
    assert!(some.nodes && some.links && some.sync_regimes);
    assert!(!some.volumes && !some.datasets && !some.placements);
    let none = ExportSections::from_only(Some("node"));
    assert!(!none.nodes);
}

#[test]
fn test_import_collision_appends_imported_suffix() {
    let taken = vec!["my-lab".to_string()];
    assert_eq!(import_name(None, "my-lab", &taken).unwrap(), "my-lab-imported");
    assert_eq!(import_name(None, "fresh", &taken).unwrap(), "fresh");
}

#[test]
fn test_import_errors_when_both_names_taken() {
    let taken = vec!["my-lab".to_string(), "my-lab-imported".to_string()];
    assert!(matches!(import_name(None, "my-lab", &taken), Err(ImportError::NameExists(n)) if n == "my-lab-imported"));
    assert!(matches!(import_name(Some("my-lab"), "x", &taken), Err(ImportError::NameExists(n)) if n == "my-lab"));
}

#[test]
fn resolution_rule() {
    let none: Vec<String> = vec![];
    assert_eq!(resolve_pick("nas", true, &none).unwrap(), Pick::ByName);
    assert!(matches!(resolve_pick("abc", false, &none), Err(ResolveError::PrefixTooShort(q)) if q == "abc"));
    assert!(matches!(resolve_pick("abcd", false, &none), Err(ResolveError::NotFound(q)) if q == "abcd"));
    let one = vec!["nas".to_string()];
    assert_eq!(resolve_pick("abcd", false, &one).unwrap(), Pick::ByPrefix);
    let two = vec!["nas".to_string(), "mini".to_string()];
    match resolve_pick("abcd", false, &two) {
        Err(ResolveError::Ambiguous { query, names }) => {
            assert_eq!(query, "abcd");
            assert_eq!(names, two);
        },
        other => panic!("unexpected {:?}", other),
    }
    // Four bytes, two characters: long enough to be a prefix.
    assert!(matches!(resolve_pick("éé", false, &none), Err(ResolveError::NotFound(_))));
}

#[test]
fn volume_resolution() {
    let none: Vec<String> = vec![];
    let nodes = vec!["nas".to_string(), "mini".to_string()];
    match resolve_volume_pick("data", 2, &nodes, &none) {
        Err(ResolveError::OnSeveralNodes { query, nodes: n }) => {
            assert_eq!(query, "data");
            assert_eq!(n, nodes);
        },
        _ => panic!("expected a refusal naming the nodes"),
    }
    assert_eq!(resolve_volume_pick("data", 1, &vec!["nas".to_string()], &none).unwrap(), Pick::ByName);
    assert!(matches!(resolve_volume_pick("dat", 0, &none, &none), Err(ResolveError::PrefixTooShort(_))));
    let one = vec!["data".to_string()];
    assert_eq!(resolve_volume_pick("0f3a", 0, &none, &one).unwrap(), Pick::ByPrefix);
    assert!(matches!(resolve_active(false, false), Err(ResolveError::NoActiveTopology)));
    assert_eq!(resolve_active(true, false).unwrap(), true);
    assert_eq!(resolve_active(false, true).unwrap(), false);
}
