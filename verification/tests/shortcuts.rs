use mded_core::shortcuts::{validate_shortcut, ShortcutManager};

#[test]
fn test_shortcut_manager_new() {
    let manager = ShortcutManager::new();
    let shortcuts = manager.get_registered_shortcuts();
    assert!(shortcuts.is_empty());
}

#[test]
fn test_parse_valid_shortcut() {
    assert!(ShortcutManager::parse_shortcut("CommandOrControl+Shift+N").is_ok());
    assert!(ShortcutManager::parse_shortcut("Ctrl+Alt+V").is_ok());
    assert!(ShortcutManager::parse_shortcut("Alt+N").is_ok());
    assert!(ShortcutManager::parse_shortcut("Shift+F1").is_ok());
    assert!(ShortcutManager::parse_shortcut("Super+A").is_ok());
}

#[test]
fn test_parse_invalid_shortcut() {
    assert!(ShortcutManager::parse_shortcut("").is_err());
    assert!(ShortcutManager::parse_shortcut("InvalidKey").is_err());
    assert!(ShortcutManager::parse_shortcut("Ctrl+").is_err());
    assert!(ShortcutManager::parse_shortcut("+N").is_err());
    assert!(ShortcutManager::parse_shortcut("NotAKey+X").is_err());
}

#[test]
fn test_is_valid_shortcut() {
    assert!(ShortcutManager::is_valid_shortcut("CommandOrControl+Shift+N"));
    assert!(ShortcutManager::is_valid_shortcut("Ctrl+Alt+V"));
    assert!(!ShortcutManager::is_valid_shortcut(""));
    assert!(!ShortcutManager::is_valid_shortcut("InvalidShortcut"));
}

#[test]
fn test_validate_shortcut_function() {
    assert!(validate_shortcut("CommandOrControl+Shift+N").is_ok());
    assert!(validate_shortcut("Ctrl+Alt+V").is_ok());
    let result = validate_shortcut("InvalidShortcut");
    assert!(result.is_err());
    if let Err(api_result) = result {
        assert!(!api_result.success);
        let message = api_result.error.unwrap();
        assert!(message.starts_with("Invalid shortcut 'InvalidShortcut': "));
    }
}

#[test]
fn test_parse_error_names_shortcut() {
    let err = ShortcutManager::parse_shortcut("NotAKey+X").unwrap_err();
    assert!(err.contains("Invalid shortcut 'NotAKey+X'"));
}

#[test]
fn test_registration_bookkeeping() {
    let mut manager = ShortcutManager::new();
    assert_eq!(manager.record_registration("toggle", "Ctrl+A"), None);
    assert_eq!(manager.record_registration("clipboard", "Ctrl+B"), None);
    // re-registering replaces the binding and hands back the old key
    assert_eq!(
        manager.record_registration("toggle", "Ctrl+C"),
        Some("Ctrl+A".to_string())
    );
    let regs = manager.get_registered_shortcuts();
    assert_eq!(regs.len(), 2);
    assert!(regs.contains(&("toggle".to_string(), "Ctrl+C".to_string())));
    assert!(regs.contains(&("clipboard".to_string(), "Ctrl+B".to_string())));
    // removing hands back the key to release
    assert_eq!(manager.take_registration("toggle"), Some("Ctrl+C".to_string()));
    assert_eq!(manager.take_registration("toggle"), None);
    let mut keys = manager.clear_registrations();
    keys.sort();
    assert_eq!(keys, vec!["Ctrl+B".to_string()]);
    assert!(manager.get_registered_shortcuts().is_empty());
}
