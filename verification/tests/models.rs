use mded_core::models::{ApiResult, Config, WindowBounds};

#[test]
fn test_api_result_success() {
    let result = ApiResult::success();
    assert!(result.success);
    assert!(result.error.is_none());
}

#[test]
fn test_api_result_error() {
    let result = ApiResult::error("test error".to_string());
    assert!(!result.success);
    assert_eq!(result.error, Some("test error".to_string()));
}

#[test]
fn test_api_result_with_content() {
    let result = ApiResult::with_content("body".to_string());
    assert!(result.success);
    assert_eq!(result.content, Some("body".to_string()));
}

#[test]
fn test_api_result_with_note_id_and_folder() {
    let result = ApiResult::with_note_id_and_folder("n1".to_string(), Some("work".to_string()));
    assert!(result.success);
    assert_eq!(result.note_id, Some("n1".to_string()));
    assert_eq!(result.folder, Some("work".to_string()));
}

#[test]
fn test_config_default() {
    let config = Config::default();
    assert_eq!(config.global_shortcut, "CommandOrControl+Shift+N");
    assert_eq!(config.clipboard_shortcut, "CommandOrControl+Alt+V");
    assert_eq!(config.quick_note_shortcut, "CommandOrControl+Alt+N");
    assert_eq!(config.window_opacity_milli, 1000);
    assert!(config.pinned_notes.is_empty());
    assert_eq!(config.minimal_mode_bounds.width, 400);
    assert_eq!(config.minimal_mode_bounds.height, 300);
    assert!(!config.auto_start_on_boot);
}

#[test]
fn test_window_bounds_default() {
    let bounds = WindowBounds::default();
    assert_eq!(bounds.width, 1200);
    assert_eq!(bounds.height, 800);
    assert!(bounds.x.is_none());
    assert!(bounds.y.is_none());
}
