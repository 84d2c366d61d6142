use storage_planner::fields::{parse_link_name, validate_criticality, FieldError};
use storage_planner::specs::{split_capacity, speed_text, unit_multiplier, Capacity, Speed, GB, KIB, MB, TB};
use storage_planner::text::{decimal, format_age, signed_decimal, slugify, str_lt, truncate};

#[test]
fn truncate_cuts_with_marker() {
    assert_eq!(truncate("short", 10), "short");
    assert_eq!(truncate("exactly-10", 10), "exactly-10");
    assert_eq!(truncate("a-much-longer-title", 10), "a-much-...");
    assert_eq!(truncate("abcdef", 2), "...");
}

#[test]
fn slugify_lowercases_and_dashes() {
    assert_eq!(slugify("Samsung 870 EVO 4TB"), "samsung-870-evo-4tb");
    assert_eq!(slugify("a_b.c"), "a-b-c");
}

#[test]
fn slugify_non_ascii_text() {
    assert_eq!(slugify("\u{dc}n\u{ef}code Stra\u{df}e"), "n-code-stra-e");
    assert_eq!(slugify("\u{212a}elvin"), "kelvin");
    let once = slugify("Caf\u{e9} NAS \u{2014} R\u{e9}seau");
    assert_eq!(once, "caf-nas-r-seau");
    assert_eq!(slugify(&once), once);
}

#[test]
fn slugify_squeezes_and_trims_dashes() {
    assert_eq!(slugify("  WD Red  Plus (8TB)! "), "wd-red-plus-8tb");
    assert_eq!(slugify("-x-"), "x");
    assert_eq!(slugify("--"), "");
    assert_eq!(slugify(""), "");
    assert_eq!(slugify("a--b"), "a-b");
}

#[test]
fn ages() {
    assert_eq!(format_age(0), "today");
    assert_eq!(format_age(1), "1 day");
    assert_eq!(format_age(12), "12 days");
    assert_eq!(format_age(-3), "-3 days");
}

#[test]
fn decimals() {
    assert_eq!(decimal(0), "0");
    assert_eq!(decimal(1050), "1050");
    assert_eq!(decimal(u64::MAX), u64::MAX.to_string());
    assert_eq!(signed_decimal(i64::MIN), i64::MIN.to_string());
}

#[test]
fn lexicographic_order() {
    assert!(str_lt("a", "b"));
    assert!(str_lt("ab", "abc"));
    assert!(!str_lt("b", "ab"));
    assert!(!str_lt("same", "same"));
}

#[test]
fn criticality_levels() {
    assert!(validate_criticality("normal").is_ok());
    assert!(validate_criticality("critical").is_ok());
    assert!(matches!(validate_criticality("urgent"), Err(FieldError::InvalidCriticality(v)) if v == "urgent"));
}

#[test]
fn link_names() {
    assert_eq!(parse_link_name("mac-mini--nas").unwrap(), ("mac-mini".to_string(), "nas".to_string()));
    assert_eq!(parse_link_name("a--b--c").unwrap(), ("a".to_string(), "b--c".to_string()));
    assert!(matches!(parse_link_name("nas"), Err(FieldError::InvalidLinkName(n)) if n == "nas"));
    assert!(parse_link_name("--nas").is_err());
    assert!(parse_link_name("nas--").is_err());
}

#[test]
fn capacity_text_splits() {
    let p = split_capacity(" 4 tb ");
    assert_eq!(p.number, "4 ");
    assert_eq!(p.unit, "TB");
    assert_eq!(unit_multiplier(&p.unit), Some(TB));
    let q = split_capacity("1.5TB");
    assert_eq!(q.number, "1.5");
    assert_eq!(q.unit, "TB");
    let bytes = split_capacity("512");
    assert_eq!(bytes.number, "512");
    assert_eq!(bytes.unit, "B");
    assert_eq!(unit_multiplier("B"), Some(1));
    assert_eq!(unit_multiplier(" GiB "), None);
    assert_eq!(unit_multiplier(" GIB "), Some(1_073_741_824));
    assert_eq!(unit_multiplier("KI"), Some(KIB));
    assert_eq!(unit_multiplier("XB"), None);
}

#[test]
fn speed_text_strips_per_second() {
    assert_eq!(speed_text("560MB/s"), "560MB");
    assert_eq!(speed_text("7GB/sec"), "7GB");
    assert_eq!(speed_text(" 560MB "), "560MB");
    let p = split_capacity(&speed_text("560MB/s"));
    assert_eq!(p.number, "560");
    assert_eq!(unit_multiplier(&p.unit), Some(MB));
    let g = split_capacity(&speed_text("7GB/s"));
    assert_eq!(unit_multiplier(&g.unit), Some(GB));
}

#[test]
fn capacity_and_speed_values() {
    assert_eq!(Capacity::from_bytes(4 * TB).bytes, 4_000_000_000_000);
    assert_eq!(Speed::from_bytes_per_sec(560 * MB).bytes_per_sec, 560_000_000);
}

#[test]
fn slugify_of_a_slug_is_itself() {
    for s in ["Samsung 870 EVO 4TB", "  WD Red  Plus (8TB)! ", "-x-", "", "a--b", "already-a-slug"] {
        let once = slugify(s);
        assert_eq!(slugify(&once), once);
    }
}
