use phys_rs::input::{
    click_action, key_action, ClickAction, Key, KeyAction, MouseButton, MouseButtons, Movement,
    MovementKeys,
};

#[test]
fn movement_keys_act_on_press_and_release() {
    assert_eq!(key_action(Key::W, true), KeyAction::Move(Movement::Forward, true));
    assert_eq!(key_action(Key::W, false), KeyAction::Move(Movement::Forward, false));
    assert_eq!(key_action(Key::Q, true), KeyAction::Move(Movement::Descend, true));
    assert_eq!(key_action(Key::A, false), KeyAction::Move(Movement::StrafeLeft, false));
}

#[test]
fn other_bindings_act_on_press_only() {
    assert_eq!(key_action(Key::Digit1, true), KeyAction::SetSpeed(1));
    assert_eq!(key_action(Key::Digit4, true), KeyAction::SetSpeed(1000));
    assert_eq!(key_action(Key::Space, true), KeyAction::TogglePause);
    assert_eq!(key_action(Key::Space, false), KeyAction::Ignore);
    assert_eq!(key_action(Key::R, true), KeyAction::ResetTime);
    assert_eq!(key_action(Key::O, true), KeyAction::ToggleCameraMode);
    assert_eq!(key_action(Key::L, true), KeyAction::ToggleScaleMode);
    assert_eq!(key_action(Key::V, true), KeyAction::ToggleVelocityVectors);
    assert_eq!(key_action(Key::F, true), KeyAction::ToggleForceVectors);
    assert_eq!(key_action(Key::G, true), KeyAction::ToggleSectorGrid);
    assert_eq!(key_action(Key::Other, true), KeyAction::Ignore);
}

#[test]
fn movement_state_tracks_keys() {
    let mut k = MovementKeys::default();
    k.set(Movement::Forward, true);
    k.set(Movement::Ascend, true);
    assert!(k.forward && k.ascend && !k.backward);
    k.set(Movement::Forward, false);
    assert!(!k.forward && k.ascend);
}

#[test]
fn mouse_buttons_and_clicks() {
    assert_eq!(click_action(MouseButton::Left, true), ClickAction::Select);
    assert_eq!(click_action(MouseButton::Right, true), ClickAction::FreeLook);
    assert_eq!(click_action(MouseButton::Left, false), ClickAction::Ignore);
    assert_eq!(click_action(MouseButton::Other, true), ClickAction::Ignore);
    let mut m = MouseButtons::default();
    m.set(MouseButton::Left, true);
    assert!(m.left && !m.right);
    m.set(MouseButton::Right, true);
    m.set(MouseButton::Other, false);
    assert!(m.left && m.right);
    m.set(MouseButton::Left, false);
    assert!(!m.left && m.right);
}
