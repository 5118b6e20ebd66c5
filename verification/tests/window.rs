use mded_core::models::WindowBounds;
use mded_core::window::WindowManager;

#[test]
fn test_window_manager_new() {
    let wm = WindowManager::new();
    assert!(!wm.is_in_minimal_mode());
    assert!(wm.get_normal_bounds().is_none());
}

#[test]
fn test_minimal_mode_state() {
    let mut wm = WindowManager::new();
    assert!(!wm.is_in_minimal_mode());
    wm.set_minimal_mode(true);
    assert!(wm.is_in_minimal_mode());
    wm.set_minimal_mode(false);
    assert!(!wm.is_in_minimal_mode());
}

#[test]
fn test_normal_bounds_save_and_get() {
    let mut wm = WindowManager::new();
    let bounds = WindowBounds { width: 1000, height: 600, x: Some(100), y: Some(200) };
    wm.save_normal_bounds(bounds);
    let retrieved = wm.get_normal_bounds();
    assert!(retrieved.is_some());
    let retrieved = retrieved.unwrap();
    assert_eq!(retrieved.width, 1000);
    assert_eq!(retrieved.height, 600);
    assert_eq!(retrieved.x, Some(100));
    assert_eq!(retrieved.y, Some(200));
}

#[test]
fn test_clear_normal_bounds() {
    let mut wm = WindowManager::new();
    let bounds = WindowBounds { width: 800, height: 600, x: None, y: None };
    wm.save_normal_bounds(bounds);
    assert!(wm.get_normal_bounds().is_some());
    wm.clear_normal_bounds();
    assert!(wm.get_normal_bounds().is_none());
}

#[test]
fn test_minimal_mode_keeps_saved_bounds() {
    let mut wm = WindowManager::new();
    let bounds = WindowBounds { width: 1000, height: 700, x: Some(5), y: Some(6) };
    wm.save_normal_bounds(bounds);
    wm.set_minimal_mode(true);
    assert!(wm.is_in_minimal_mode());
    assert_eq!(wm.get_normal_bounds().unwrap(), bounds);
}

#[test]
fn test_bounds_to_persist() {
    let mut wm = WindowManager::new();
    let small = WindowBounds { width: 10, height: 10, x: Some(1), y: Some(2) };
    // outside minimal mode the clamped bounds are persisted
    let persisted = wm.bounds_to_persist(small).unwrap();
    assert_eq!(persisted.width, 300);
    assert_eq!(persisted.height, 200);
    assert_eq!(persisted.x, Some(1));
    // inside minimal mode nothing is persisted
    wm.set_minimal_mode(true);
    assert!(wm.bounds_to_persist(small).is_none());
}

#[test]
fn test_opacity_clamping() {
    // below the minimum (0.1, 0.0 as thousandths)
    assert_eq!(WindowManager::clamp_opacity(100), 300);
    assert_eq!(WindowManager::clamp_opacity(0), 300);
    // above the maximum (1.5, 2.0 as thousandths)
    assert_eq!(WindowManager::clamp_opacity(1500), 1000);
    assert_eq!(WindowManager::clamp_opacity(2000), 1000);
    // inside the interval the value is untouched
    assert_eq!(WindowManager::clamp_opacity(500), 500);
    assert_eq!(WindowManager::clamp_opacity(300), 300);
    assert_eq!(WindowManager::clamp_opacity(1000), 1000);
    assert_eq!(WindowManager::clamp_opacity(750), 750);
}

#[test]
fn test_bounds_clamping() {
    let small_bounds = WindowBounds { width: 100, height: 100, x: Some(50), y: Some(50) };
    let clamped = WindowManager::clamp_bounds(small_bounds);
    assert_eq!(clamped.width, 300);
    assert_eq!(clamped.height, 200);
    assert_eq!(clamped.x, Some(50));
    assert_eq!(clamped.y, Some(50));

    let min_bounds = WindowBounds { width: 300, height: 200, x: None, y: None };
    let clamped = WindowManager::clamp_bounds(min_bounds);
    assert_eq!(clamped.width, 300);
    assert_eq!(clamped.height, 200);

    let large_bounds = WindowBounds { width: 1920, height: 1080, x: Some(0), y: Some(0) };
    let clamped = WindowManager::clamp_bounds(large_bounds);
    assert_eq!(clamped, large_bounds);
}
