use mded_core::paths::{canonical_within_base, check_canonical_containment, validate_path};

#[test]
fn test_validate_path_rejects_double_dot() {
    let result = validate_path("/base", "..");
    assert!(result.is_err());
    assert!(result.unwrap_err().contains(".."));
}

#[test]
fn test_validate_path_rejects_embedded_double_dot() {
    let result = validate_path("/base", "foo..bar");
    assert!(result.is_err());
}

#[test]
fn test_validate_path_rejects_forward_slash() {
    let result = validate_path("/base", "foo/bar");
    assert!(result.is_err());
    assert!(result.unwrap_err().contains("/"));
}

#[test]
fn test_validate_path_rejects_backslash() {
    let result = validate_path("/base", "foo\\bar");
    assert!(result.is_err());
    assert!(result.unwrap_err().contains("\\"));
}

#[test]
fn test_validate_path_accepts_valid_filename() {
    let result = validate_path("/base", "valid-filename.md");
    assert!(result.is_ok());
}

#[test]
fn test_validate_path_accepts_filename_with_dots() {
    // Single dots in filenames are allowed (e.g., "file.name.md")
    let result = validate_path("/base", "file.name.md");
    assert!(result.is_ok());
}

#[test]
fn test_validate_path_returns_correct_path() {
    let result = validate_path("/base", "test.md").unwrap();
    assert!(result.ends_with("test.md"));
    assert_eq!(result, "/base/test.md");
}

#[test]
fn test_validate_path_error_names_first_token() {
    // the checks run in a fixed order: ".." before the separators
    let result = validate_path("/base", "../x");
    assert!(result.unwrap_err().contains(".."));
    let result = validate_path("/base", "a/b\\c");
    assert!(result.unwrap_err().contains("/"));
}

#[test]
fn test_canonical_containment_same_dir() {
    assert!(canonical_within_base("/base", "/base"));
    assert!(check_canonical_containment("/base", "/base").is_ok());
}

#[test]
fn test_canonical_containment_inside() {
    assert!(canonical_within_base("/base/notes/a.md", "/base"));
    assert!(check_canonical_containment("/base/notes/a.md", "/base").is_ok());
}

#[test]
fn test_canonical_containment_outside() {
    assert!(!canonical_within_base("/elsewhere/a.md", "/base"));
    // a sibling whose name merely starts with the base is outside
    assert!(!canonical_within_base("/base2/a.md", "/base"));
    let result = check_canonical_containment("/etc/passwd", "/base");
    assert!(result.unwrap_err().contains("outside"));
}
