use haforu::security::{
    check_canonical_within_base, check_path_characters, path_has_traversal, validate_font_size,
    validate_json_size, validate_text_input, MemoryMonitor, TimeoutGuard, MAX_FONT_SIZE,
    MAX_JSON_SIZE, MAX_MEMORY_USAGE, MAX_TEXT_LENGTH,
};

#[test]
fn test_json_size_validation() {
    let small_json = r#"{"test": "data"}"#;
    assert!(validate_json_size(small_json).is_ok());

    let large_json = "x".repeat(MAX_JSON_SIZE + 1);
    assert!(validate_json_size(&large_json).is_err());
}

#[test]
fn test_text_validation() {
    let valid_text = "Hello, world!";
    assert!(validate_text_input(valid_text).is_ok());

    let long_text = "x".repeat(MAX_TEXT_LENGTH + 1);
    assert!(validate_text_input(&long_text).is_err());

    let text_with_control = "Hello\x00World";
    assert!(validate_text_input(text_with_control).is_err());

    let text_with_whitespace = "Hello\tWorld\n";
    assert!(validate_text_input(text_with_whitespace).is_ok());
}

#[test]
fn test_font_size_validation() {
    assert!(validate_font_size(1024).is_ok());
    assert!(validate_font_size(MAX_FONT_SIZE + 1).is_err());
}

#[test]
fn test_memory_monitor() {
    let monitor = MemoryMonitor::new(MAX_MEMORY_USAGE);
    assert!(monitor.check_usage().is_ok());
}

#[test]
fn path_traversal_is_rejected() {
    assert!(path_has_traversal("../etc/passwd"));
    assert!(path_has_traversal("~/sensitive"));
    assert!(path_has_traversal("fonts/../../x"));
    assert!(!path_has_traversal("/fonts/a.ttf"));
    assert!(check_path_characters("../etc/passwd").is_err());
    assert!(check_path_characters("/fonts/a.ttf").is_ok());
}

#[test]
fn canonical_base_prefix_is_enforced() {
    assert!(check_canonical_within_base("/base/fonts/a.ttf", "/base").is_ok());
    assert!(check_canonical_within_base("/base", "/base").is_ok());
    assert!(check_canonical_within_base("/basement/a.ttf", "/base").is_err());
    assert!(check_canonical_within_base("/other/a.ttf", "/base").is_err());
}

#[test]
fn timeout_guard_with_budget_passes() {
    let guard = TimeoutGuard::new(60_000);
    assert!(guard.check("start").is_ok());
    let e = guard.elapsed();
    assert!(e < 60_000);
}

#[test]
fn root_base_directory_admits_absolute_paths() {
    assert!(check_canonical_within_base("/fonts/a.ttf", "/").is_ok());
    assert!(check_canonical_within_base("/base/", "/base/").is_ok());
    assert!(check_canonical_within_base("/base/a.ttf", "/base/").is_ok());
}
