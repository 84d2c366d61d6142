use storage_planner::resolve::validate_slug;

#[test]
fn test_validate_slug_valid() {
    assert!(validate_slug("my-node").is_ok());
    assert!(validate_slug("node_1").is_ok());
    assert!(validate_slug("abc123").is_ok());
}

#[test]
fn test_validate_slug_invalid() {
    assert!(validate_slug("my node").is_err());
    assert!(validate_slug("node!").is_err());
    assert!(validate_slug("hello world").is_err());
    assert!(validate_slug("").is_err());
}
