use storage_planner::diff::{
    count_entries, diff_entities, diff_fields, diff_summary, format_diff_value, sorted_unique, DiffEntry,
    DiffSections, Entity, Field, FieldValue,
};

fn field(name: &str, v: FieldValue) -> Field {
    Field { name: name.to_string(), value: v }
}

fn text(s: &str) -> FieldValue {
    FieldValue::Text(s.to_string())
}

fn entity(key: &str, fields: Vec<Field>) -> Entity {
    Entity { key: key.to_string(), fields }
}

#[test]
fn sorted_unique_sorts_and_dedups() {
    let keys = vec!["b".to_string(), "a".to_string(), "b".to_string(), "ab".to_string()];
    assert_eq!(sorted_unique(&keys), vec!["a", "ab", "b"]);
}

#[test]
fn field_diff_skips_ids_and_orders_by_name() {
    let left = vec![
        field("id", text("1")),
        field("role", text("nas")),
        field("name", text("box")),
        field("noise_db", FieldValue::Other("30.0".to_string())),
    ];
    let right = vec![
        field("id", text("2")),
        field("name", text("box")),
        field("role", text("server")),
        field("location", text("rack")),
    ];
    let d = diff_fields(&left, &right);
    let names: Vec<&str> = d.iter().map(|x| x.field.as_str()).collect();
    assert_eq!(names, vec!["location", "noise_db", "role"]);
    assert!(matches!(d[0].old_value, FieldValue::Null));
    assert!(matches!(&d[0].new_value, FieldValue::Text(s) if s == "rack"));
    assert!(matches!(d[1].new_value, FieldValue::Null));
    assert!(matches!(&d[2].old_value, FieldValue::Text(s) if s == "nas"));
}

#[test]
fn entity_diff_removed_added_changed() {
    let base = vec![
        entity("alpha", vec![field("role", text("nas"))]),
        entity("beta", vec![field("role", text("server"))]),
        entity("gamma", vec![field("role", text("x"))]),
    ];
    let target = vec![
        entity("delta", vec![field("role", text("nas"))]),
        entity("beta", vec![field("role", text("router"))]),
        entity("gamma", vec![field("role", text("x")), field("id", text("other"))]),
    ];
    let d = diff_entities(&base, &target);
    assert_eq!(d.len(), 3);
    assert!(matches!(&d[0], DiffEntry::Removed(k, 0) if k == "alpha"));
    assert!(matches!(&d[1], DiffEntry::Added(k, 0) if k == "delta"));
    match &d[2] {
        DiffEntry::Changed(k, fd) => {
            assert_eq!(k, "beta");
            assert_eq!(fd.len(), 1);
            assert_eq!(fd[0].field, "role");
        },
        other => panic!("unexpected {:?}", other),
    }
    assert_eq!(count_entries(&d), (1, 1, 1));
}

#[test]
fn identical_sides_have_no_diff() {
    let side = vec![entity("a", vec![field("role", text("nas"))]), entity("b", vec![])];
    assert!(diff_entities(&side, &side).is_empty());
}

#[test]
fn last_entity_of_a_key_counts() {
    let base = vec![entity("a", vec![field("v", text("1"))]), entity("a", vec![field("v", text("2"))])];
    let target = vec![entity("b", vec![])];
    let d = diff_entities(&base, &target);
    assert!(matches!(&d[0], DiffEntry::Removed(k, 1) if k == "a"));
}

#[test]
fn diff_value_display() {
    assert_eq!(format_diff_value(&FieldValue::Null), "(none)");
    assert_eq!(format_diff_value(&text("nas")), "nas");
    assert_eq!(format_diff_value(&FieldValue::Other("4".to_string())), "4");
}

#[test]
fn summary_line() {
    assert_eq!(diff_summary(0, 0, 0), "No differences found.");
    assert_eq!(diff_summary(2, 0, 1), "Summary: 2 added, 1 removed");
    assert_eq!(diff_summary(1, 3, 12), "Summary: 1 added, 3 modified, 12 removed");
    assert_eq!(diff_summary(0, 7, 0), "Summary: 7 modified");
}

#[test]
fn sections_from_flags() {
    let none = DiffSections { nodes: false, volumes: false, datasets: false, placements: false, links: false, syncs: false };
    let all = DiffSections::from_flags(none);
    assert!(all.nodes && all.volumes && all.datasets && all.placements && all.links && all.syncs);
    let only_links = DiffSections::from_flags(DiffSections { links: true, ..none });
    assert_eq!(only_links, DiffSections { links: true, ..none });
}

fn keyed(d: &[DiffEntry]) -> Vec<String> {
    d.iter()
        .map(|e| match e {
            DiffEntry::Removed(k, _) => format!("-{}", k),
            DiffEntry::Added(k, _) => format!("+{}", k),
            DiffEntry::Changed(k, _) => format!("~{}", k),
        })
        .collect()
}

#[test]
fn swapping_sides_swaps_added_and_removed() {
    let a = vec![
        entity("alpha", vec![field("role", text("nas"))]),
        entity("beta", vec![field("role", text("server"))]),
    ];
    let b = vec![
        entity("beta", vec![field("role", text("router"))]),
        entity("delta", vec![field("role", text("nas"))]),
    ];
    assert_eq!(keyed(&diff_entities(&a, &b)), vec!["-alpha", "+delta", "~beta"]);
    assert_eq!(keyed(&diff_entities(&b, &a)), vec!["-delta", "+alpha", "~beta"]);
}
