use mod_manager::window::{resized_by_user, restores_size, state_to_save, WindowEvent, WindowState};

#[test]
fn first_save_takes_current_position_without_size() {
    let s = state_to_save(None, 10, 20, 800, 600, false, false);
    assert_eq!(s, WindowState { x: 10, y: 20, width: None, height: None, maximized: false });
}

#[test]
fn hand_sized_window_saves_its_size() {
    let s = state_to_save(None, 5, 6, 1024, 768, false, true);
    assert_eq!(s, WindowState { x: 5, y: 6, width: Some(1024), height: Some(768), maximized: false });
}

#[test]
fn maximized_window_keeps_saved_placement() {
    let saved = WindowState { x: 1, y: 2, width: Some(300), height: Some(200), maximized: false };
    let s = state_to_save(Some(saved), 0, 0, 1920, 1080, true, true);
    assert_eq!(s, WindowState { x: 1, y: 2, width: Some(300), height: Some(200), maximized: true });
}

#[test]
fn resize_counts_only_when_not_maximized() {
    assert!(resized_by_user(WindowEvent::Resized, false, false));
    assert!(!resized_by_user(WindowEvent::Resized, false, true));
    assert!(!resized_by_user(WindowEvent::Moved, false, false));
    assert!(resized_by_user(WindowEvent::CloseRequested, true, true));
}

#[test]
fn saved_size_needs_both_dimensions() {
    assert!(restores_size(&WindowState { x: 0, y: 0, width: Some(1), height: Some(1), maximized: false }));
    assert!(!restores_size(&WindowState { x: 0, y: 0, width: Some(1), height: None, maximized: false }));
}
