use chemengine::window::{InputState, KeyCode, MouseButton};

#[test]
fn press_and_release_key_tracking() {
    let mut input = InputState::default();
    assert!(!input.is_key_pressed(KeyCode::W));
    assert!(!input.is_key_just_pressed(KeyCode::W));
    input.press_key(KeyCode::W);
    assert!(input.is_key_pressed(KeyCode::W));
    assert!(input.is_key_just_pressed(KeyCode::W));
    input.press_key(KeyCode::W);
    assert!(input.is_key_pressed(KeyCode::W));
    assert!(input.is_key_just_pressed(KeyCode::W));
    input.release_key(KeyCode::W);
    assert!(!input.is_key_pressed(KeyCode::W));
    assert!(input.is_key_just_released(KeyCode::W));
    input.begin_frame();
    input.release_key(KeyCode::W);
    assert!(!input.is_key_just_released(KeyCode::W));
}

#[test]
fn just_pressed_clears_after_begin_frame() {
    let mut input = InputState::default();
    input.press_key(KeyCode::Space);
    assert!(input.is_key_just_pressed(KeyCode::Space));
    assert!(input.is_key_pressed(KeyCode::Space));
    input.begin_frame();
    assert!(!input.is_key_just_pressed(KeyCode::Space));
    assert!(input.is_key_pressed(KeyCode::Space));
}

#[test]
fn just_released_clears_after_begin_frame() {
    let mut input = InputState::default();
    input.press_key(KeyCode::Escape);
    input.release_key(KeyCode::Escape);
    assert!(input.is_key_just_released(KeyCode::Escape));
    input.begin_frame();
    assert!(!input.is_key_just_released(KeyCode::Escape));
}

#[test]
fn mouse_button_tracking() {
    let mut input = InputState::default();
    input.press_mouse(MouseButton::Left);
    assert!(input.is_mouse_pressed(MouseButton::Left));
    assert!(input.is_mouse_just_pressed(MouseButton::Left));
    assert!(!input.is_mouse_pressed(MouseButton::Right));
    input.begin_frame();
    assert!(input.is_mouse_pressed(MouseButton::Left));
    assert!(!input.is_mouse_just_pressed(MouseButton::Left));
    input.release_mouse(MouseButton::Left);
    assert!(!input.is_mouse_pressed(MouseButton::Left));
}

#[test]
fn multiple_keys_tracked_independently() {
    let mut input = InputState::default();
    input.press_key(KeyCode::A);
    input.press_key(KeyCode::D);
    assert!(input.is_key_pressed(KeyCode::A));
    assert!(input.is_key_pressed(KeyCode::D));
    assert!(!input.is_key_pressed(KeyCode::W));
    input.release_key(KeyCode::A);
    assert!(!input.is_key_pressed(KeyCode::A));
    assert!(input.is_key_pressed(KeyCode::D));
}

#[test]
fn held_key_pressed_again_next_frame_is_not_just_pressed() {
    let mut input = InputState::new();
    input.press_key(KeyCode::Enter);
    input.begin_frame();
    input.press_key(KeyCode::Enter);
    assert!(!input.is_key_just_pressed(KeyCode::Enter));
    assert!(input.is_key_pressed(KeyCode::Enter));
}

#[test]
fn releasing_unpressed_button_changes_nothing() {
    let mut input = InputState::new();
    input.release_mouse(MouseButton::Right);
    assert!(!input.is_mouse_pressed(MouseButton::Right));
    input.press_mouse(MouseButton::Right);
    input.press_mouse(MouseButton::Middle);
    input.release_mouse(MouseButton::Right);
    assert!(input.is_mouse_pressed(MouseButton::Middle));
    assert!(!input.is_mouse_pressed(MouseButton::Right));
}
