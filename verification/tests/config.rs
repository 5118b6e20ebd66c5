use mded_core::config::{config_to_json, merge_config_with_defaults, ConfigManager};
use mded_core::models::Config;
use mded_core::store::FileSystem;

#[test]
fn test_config_manager_new_no_file() {
    let manager = ConfigManager::new("/data/config.json".to_string(), None).unwrap();
    let config = manager.get();
    assert_eq!(config.global_shortcut, "CommandOrControl+Shift+N");
    assert_eq!(config.window_opacity_milli, 1000);
    assert!(config.pinned_notes.is_empty());
}

#[test]
fn test_config_manager_load_existing() {
    let partial_config = r#"{
        "global_shortcut": "Ctrl+Alt+M",
        "window_opacity": 0.8
    }"#;
    let manager =
        ConfigManager::new("/data/config.json".to_string(), Some(partial_config)).unwrap();
    let config = manager.get();
    assert_eq!(config.global_shortcut, "Ctrl+Alt+M");
    assert_eq!(config.window_opacity_milli, 800);
    assert_eq!(config.clipboard_shortcut, "CommandOrControl+Alt+V");
    assert!(config.pinned_notes.is_empty());
}

#[test]
fn test_config_manager_unreadable_file_is_error() {
    let result = ConfigManager::new("/data/config.json".to_string(), Some("not json"));
    assert!(result.is_err());
    assert!(result.err().unwrap().contains("parse"));
}

#[test]
fn test_config_manager_update() {
    let mut manager = ConfigManager::new("/data/config.json".to_string(), None).unwrap();
    let mut config = manager.get();
    config.global_shortcut = "Ctrl+Shift+M".to_string();
    config.window_opacity_milli = 500;
    manager.update(config);
    let config = manager.get();
    assert_eq!(config.global_shortcut, "Ctrl+Shift+M");
    assert_eq!(config.window_opacity_milli, 500);
}

#[test]
fn test_config_manager_save_sync() {
    let mut manager = ConfigManager::new("/data/config.json".to_string(), None).unwrap();
    manager.set_global_shortcut("Ctrl+Alt+X".to_string());
    let content = manager.save_sync();
    assert!(content.contains("Ctrl+Alt+X"));
}

#[test]
fn test_config_manager_last_note() {
    let mut manager = ConfigManager::new("/data/config.json".to_string(), None).unwrap();
    let last_note = manager.get_last_note();
    assert!(last_note.note_id.is_none());
    assert!(last_note.folder.is_none());
    manager.save_last_note(Some("note-123".to_string()), Some("work".to_string()));
    let last_note = manager.get_last_note();
    assert_eq!(last_note.note_id, Some("note-123".to_string()));
    assert_eq!(last_note.folder, Some("work".to_string()));
}

#[test]
fn test_config_manager_global_shortcut() {
    let mut manager = ConfigManager::new("/data/config.json".to_string(), None).unwrap();
    assert_eq!(manager.get_global_shortcut(), "CommandOrControl+Shift+N");
    manager.set_global_shortcut("Ctrl+Alt+N".to_string());
    assert_eq!(manager.get_global_shortcut(), "Ctrl+Alt+N");
}

#[test]
fn test_config_manager_pinned_notes() {
    let mut manager = ConfigManager::new("/data/config.json".to_string(), None).unwrap();
    assert!(manager.get_pinned_notes().is_empty());
    manager.set_pinned_notes(vec!["a".to_string(), "b".to_string()]);
    assert_eq!(manager.get_pinned_notes(), vec!["a".to_string(), "b".to_string()]);
}

#[test]
fn test_config_manager_opacity_clamped() {
    let mut manager = ConfigManager::new("/data/config.json".to_string(), None).unwrap();
    manager.set_window_opacity(100);
    assert_eq!(manager.get_window_opacity(), 300);
    manager.set_window_opacity(2000);
    assert_eq!(manager.get_window_opacity(), 1000);
    manager.set_window_opacity(650);
    assert_eq!(manager.get_window_opacity(), 650);
}

#[test]
fn test_config_manager_debounce_coalesces() {
    let mut manager = ConfigManager::new("/data/config.json".to_string(), None).unwrap();
    let mut c1 = manager.get();
    c1.global_shortcut = "Ctrl+1".to_string();
    manager.update(c1);
    let t1 = manager.schedule_save();
    let mut c2 = manager.get();
    c2.global_shortcut = "Ctrl+2".to_string();
    manager.update(c2.clone());
    let t2 = manager.schedule_save();
    // the superseded timer writes nothing
    assert_eq!(manager.timer_fired(t1), None);
    // the latest timer writes the latest value, once
    let written = manager.timer_fired(t2).unwrap();
    assert_eq!(written, config_to_json(&c2));
    assert!(written.contains("Ctrl+2"));
    assert!(!written.contains("Ctrl+1"));
    assert_eq!(manager.timer_fired(t2), None);
}

#[test]
fn test_merge_config_with_defaults_empty() {
    let config = merge_config_with_defaults("").unwrap();
    assert_eq!(config, Config::default());
}

#[test]
fn test_merge_config_with_defaults_partial() {
    let partial = r#"{"global_shortcut": "Custom+Key"}"#;
    let config = merge_config_with_defaults(partial).unwrap();
    assert_eq!(config.global_shortcut, "Custom+Key");
    // every other field stays at its default
    let mut expected = Config::default();
    expected.global_shortcut = "Custom+Key".to_string();
    assert_eq!(config, expected);
}

#[test]
fn test_merge_config_with_defaults_full() {
    let full = config_to_json(&Config::default());
    let config = merge_config_with_defaults(&full).unwrap();
    assert_eq!(config, Config::default());
}

#[test]
fn test_merge_skips_ill_typed_fields() {
    let partial = r#"{
        "global_shortcut": 5,
        "auto_start_on_boot": "yes",
        "pinned_notes": ["a", 7, "b"],
        "window_bounds": {"width": "wide", "height": 500},
        "window_opacity": "dark"
    }"#;
    let config = merge_config_with_defaults(partial).unwrap();
    let defaults = Config::default();
    assert_eq!(config.global_shortcut, defaults.global_shortcut);
    assert_eq!(config.auto_start_on_boot, false);
    // non-string entries of the pinned list are skipped
    assert_eq!(config.pinned_notes, vec!["a".to_string(), "b".to_string()]);
    assert_eq!(config.window_bounds, defaults.window_bounds);
    assert_eq!(config.window_opacity_milli, 1000);
}

#[test]
fn test_merge_reads_bounds_and_last_note() {
    let partial = r#"{
        "window_bounds": {"width": 640, "height": 480, "x": -10, "y": null},
        "last_note_id": "note-9",
        "last_folder": null
    }"#;
    let config = merge_config_with_defaults(partial).unwrap();
    assert_eq!(config.window_bounds.width, 640);
    assert_eq!(config.window_bounds.height, 480);
    assert_eq!(config.window_bounds.x, Some(-10));
    assert_eq!(config.window_bounds.y, None);
    assert_eq!(config.last_note_id, Some("note-9".to_string()));
    // a present key with a non-string value clears the field
    assert_eq!(config.last_folder, None);
}

#[test]
fn test_merge_clamps_opacity_into_domain() {
    let high = merge_config_with_defaults(r#"{"window_opacity": 5.0}"#).unwrap();
    assert_eq!(high.window_opacity_milli, 1000);
    let low = merge_config_with_defaults(r#"{"window_opacity": 0.05}"#).unwrap();
    assert_eq!(low.window_opacity_milli, 300);
    let negative = merge_config_with_defaults(r#"{"window_opacity": -0.5}"#).unwrap();
    assert_eq!(negative.window_opacity_milli, 300);
    let inside = merge_config_with_defaults(r#"{"window_opacity": 0.85}"#).unwrap();
    assert_eq!(inside.window_opacity_milli, 850);
}

#[test]
fn test_merge_rejects_unparsable_document() {
    let result = merge_config_with_defaults("{not json");
    assert!(result.is_err());
    assert!(result.unwrap_err().starts_with("Failed to parse config: "));
}

#[test]
fn test_config_round_trip_with_custom_values() {
    let mut config = Config::default();
    config.global_shortcut = "Ctrl+\"quoted\"+\\slash".to_string();
    config.pinned_notes = vec!["n1".to_string(), "n \u{263A} 2".to_string()];
    config.last_note_id = Some("note-xyz".to_string());
    config.window_opacity_milli = 430;
    config.auto_start_on_boot = true;
    config.window_bounds.x = Some(-55);
    let text = config_to_json(&config);
    // the persisted text is plain JSON that serde_json accepts
    assert!(serde_json::from_str::<serde_json::Value>(&text).is_ok());
    let reloaded = merge_config_with_defaults(&text).unwrap();
    assert_eq!(reloaded, config);
}

#[test]
fn test_note_order_round_trip() {
    let fs = FileSystem::new_with_base("/data").unwrap();
    let order = vec![
        ("".to_string(), vec!["a".to_string(), "b".to_string()]),
        ("work".to_string(), Vec::new()),
        ("pe rso\"nal".to_string(), vec!["c".to_string()]),
    ];
    let text = fs.save_note_order(&order);
    assert!(serde_json::from_str::<serde_json::Value>(&text).is_ok());
    let mut read = fs.get_note_order(Some(&text)).unwrap();
    // the parsed document hands entries back in key order; the map's
    // meaning is unordered
    let mut expected = order.clone();
    read.sort();
    expected.sort();
    assert_eq!(read, expected);
}

#[test]
fn test_note_order_missing_and_malformed() {
    let fs = FileSystem::new_with_base("/data").unwrap();
    assert!(fs.get_note_order(None).unwrap().is_empty());
    let bad = fs.get_note_order(Some("[1, 2]"));
    assert!(bad.unwrap_err().starts_with("Failed to parse note order file: "));
    let worse = fs.get_note_order(Some("{\"a\": [1]}"));
    assert!(worse.is_err());
}

#[test]
fn test_pinned_notes_file_round_trip() {
    let fs = FileSystem::new_with_base("/data").unwrap();
    assert!(fs.load_pinned_notes(None).is_empty());
    let text = fs.save_pinned_notes(None, vec!["x".to_string(), "y".to_string()]);
    let read = fs.load_pinned_notes(Some(&text));
    assert_eq!(read, vec!["x".to_string(), "y".to_string()]);
}

#[test]
fn test_load_pinned_notes_reads_exactly_the_array() {
    let fs = FileSystem::new_with_base("/data").unwrap();
    // string elements are kept in order, anything else is skipped
    let content = r#"{"global_shortcut": 7, "pinned_notes": ["b", 3, "a", null, "b"]}"#;
    let read = fs.load_pinned_notes(Some(content));
    assert_eq!(read, vec!["b".to_string(), "a".to_string(), "b".to_string()]);
    // a non-array under the key pins nothing
    assert!(fs.load_pinned_notes(Some(r#"{"pinned_notes": "b"}"#)).is_empty());
}

#[test]
fn test_save_pinned_notes_keeps_other_fields() {
    let fs = FileSystem::new_with_base("/data").unwrap();
    let existing = r#"{"global_shortcut": "Ctrl+K", "pinned_notes": ["old"]}"#;
    let text = fs.save_pinned_notes(Some(existing), vec!["new".to_string()]);
    let merged = merge_config_with_defaults(&text).unwrap();
    assert_eq!(merged.global_shortcut, "Ctrl+K");
    assert_eq!(merged.pinned_notes, vec!["new".to_string()]);
}
