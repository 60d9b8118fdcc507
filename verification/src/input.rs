//! Keyboard handling of the sandbox window: which action each key triggers.
use vstd::prelude::*;

verus! {

/// The keys the sandbox reacts to.
#[derive(Clone, Copy, PartialEq, Eq, Structural, Debug)]
pub enum Key {
    W,
    S,
    A,
    D,
    E,
    Q,
    Digit1,
    Digit2,
    Digit3,
    Digit4,
    Space,
    R,
    O,
    L,
    V,
    F,
    G,
    /// Any other key.
    Other,
}

/// A direction of free-fly camera movement.
#[derive(Clone, Copy, PartialEq, Eq, Structural, Debug)]
pub enum Movement {
    Forward,
    Backward,
    StrafeLeft,
    StrafeRight,
    Ascend,
    Descend,
}

/// What a key event asks the sandbox to do.
#[derive(Clone, Copy, PartialEq, Eq, Structural, Debug)]
pub enum KeyAction {
    /// Hold (`true`) or release (`false`) a camera movement key.
    Move(Movement, bool),
    /// Set the simulation speed multiplier.
    SetSpeed(u32),
    /// Pause or resume the simulation.
    TogglePause,
    /// Reset the simulation clock (tick, elapsed time, accumulator).
    ResetTime,
    /// Switch between the orbital and the free-fly camera.
    ToggleCameraMode,
    /// Switch between linear and logarithmic body scale.
    ToggleScaleMode,
    /// Show or hide velocity vectors.
    ToggleVelocityVectors,
    /// Show or hide force vectors.
    ToggleForceVectors,
    /// Show or hide the sector grid.
    ToggleSectorGrid,
    /// Nothing to do.
    Ignore,
}

/// The key binding: movement keys act on press and on release, every other
/// binding acts on press only.
pub open spec fn key_binding(key: Key, pressed: bool) -> KeyAction {
    match key {
        Key::W => KeyAction::Move(Movement::Forward, pressed),
        Key::S => KeyAction::Move(Movement::Backward, pressed),
        Key::A => KeyAction::Move(Movement::StrafeLeft, pressed),
        Key::D => KeyAction::Move(Movement::StrafeRight, pressed),
        Key::E => KeyAction::Move(Movement::Ascend, pressed),
        Key::Q => KeyAction::Move(Movement::Descend, pressed),
        _ => if !pressed {
            KeyAction::Ignore
        } else {
            match key {
                Key::Digit1 => KeyAction::SetSpeed(1),
                Key::Digit2 => KeyAction::SetSpeed(10),
                Key::Digit3 => KeyAction::SetSpeed(100),
                Key::Digit4 => KeyAction::SetSpeed(1000),
                Key::Space => KeyAction::TogglePause,
                Key::R => KeyAction::ResetTime,
                Key::O => KeyAction::ToggleCameraMode,
                Key::L => KeyAction::ToggleScaleMode,
                Key::V => KeyAction::ToggleVelocityVectors,
                Key::F => KeyAction::ToggleForceVectors,
                Key::G => KeyAction::ToggleSectorGrid,
                _ => KeyAction::Ignore,
            }
        },
    }
}

/// The action a key press (`pressed`) or release triggers.
pub fn key_action(key: Key, pressed: bool) -> (a: KeyAction)
    ensures
        a == key_binding(key, pressed),
        key == Key::W ==> a == KeyAction::Move(Movement::Forward, pressed),
        key == Key::S ==> a == KeyAction::Move(Movement::Backward, pressed),
        key == Key::A ==> a == KeyAction::Move(Movement::StrafeLeft, pressed),
        key == Key::D ==> a == KeyAction::Move(Movement::StrafeRight, pressed),
        key == Key::E ==> a == KeyAction::Move(Movement::Ascend, pressed),
        key == Key::Q ==> a == KeyAction::Move(Movement::Descend, pressed),
        !pressed ==> (a is Move || a == KeyAction::Ignore),
{
    match key {
        Key::W => KeyAction::Move(Movement::Forward, pressed),
        Key::S => KeyAction::Move(Movement::Backward, pressed),
        Key::A => KeyAction::Move(Movement::StrafeLeft, pressed),
        Key::D => KeyAction::Move(Movement::StrafeRight, pressed),
        Key::E => KeyAction::Move(Movement::Ascend, pressed),
        Key::Q => KeyAction::Move(Movement::Descend, pressed),
        _ => {
            if !pressed {
                return KeyAction::Ignore;
            }
            match key {
                Key::Digit1 => KeyAction::SetSpeed(1),
                Key::Digit2 => KeyAction::SetSpeed(10),
                Key::Digit3 => KeyAction::SetSpeed(100),
                Key::Digit4 => KeyAction::SetSpeed(1000),
                Key::Space => KeyAction::TogglePause,
                Key::R => KeyAction::ResetTime,
                Key::O => KeyAction::ToggleCameraMode,
                Key::L => KeyAction::ToggleScaleMode,
                Key::V => KeyAction::ToggleVelocityVectors,
                Key::F => KeyAction::ToggleForceVectors,
                Key::G => KeyAction::ToggleSectorGrid,
                _ => KeyAction::Ignore,
            }
        },
    }
}

/// Releasing a key only ever releases a camera movement.
pub proof fn lemma_release_only_moves(key: Key)
    ensures
        match key_binding(key, false) {
            KeyAction::Move(_, held) => !held,
            KeyAction::Ignore => true,
            _ => false,
        },
{
}

/// Which camera movement keys are held.
#[derive(Clone, Copy, PartialEq, Eq, Structural, Debug, Default)]
pub struct MovementKeys {
    pub forward: bool,
    pub backward: bool,
    pub strafe_left: bool,
    pub strafe_right: bool,
    pub ascend: bool,
    pub descend: bool,
}

/// Whether `m` is held in `k`.
pub open spec fn is_held(k: MovementKeys, m: Movement) -> bool {
    match m {
        Movement::Forward => k.forward,
        Movement::Backward => k.backward,
        Movement::StrafeLeft => k.strafe_left,
        Movement::StrafeRight => k.strafe_right,
        Movement::Ascend => k.ascend,
        Movement::Descend => k.descend,
    }
}

impl MovementKeys {
    /// Records that movement `m` is now held (`true`) or released.
    pub fn set(&mut self, m: Movement, held: bool)
        ensures
            is_held(*final(self), m) == held,
            forall|other: Movement| other != m ==> is_held(*final(self), other) == is_held(
                *old(self),
                other,
            ),
    {
        match m {
            Movement::Forward => self.forward = held,
            Movement::Backward => self.backward = held,
            Movement::StrafeLeft => self.strafe_left = held,
            Movement::StrafeRight => self.strafe_right = held,
            Movement::Ascend => self.ascend = held,
            Movement::Descend => self.descend = held,
        }
    }
}

/// The mouse buttons the sandbox reacts to.
#[derive(Clone, Copy, PartialEq, Eq, Structural, Debug)]
pub enum MouseButton {
    Left,
    Right,
    /// Any other button.
    Other,
}

/// What pressing a mouse button asks for besides recording its state.
#[derive(Clone, Copy, PartialEq, Eq, Structural, Debug)]
pub enum ClickAction {
    /// Pick the body under the cursor (left press).
    Select,
    /// Leave the orbital camera for a free-fly camera at the same eye
    /// position (right press).
    FreeLook,
    /// Nothing more to do.
    Ignore,
}

/// The click binding: a left press selects, a right press switches to free
/// look, releases and other buttons do nothing more.
pub open spec fn click_binding(button: MouseButton, pressed: bool) -> ClickAction {
    if !pressed {
        ClickAction::Ignore
    } else {
        match button {
            MouseButton::Left => ClickAction::Select,
            MouseButton::Right => ClickAction::FreeLook,
            MouseButton::Other => ClickAction::Ignore,
        }
    }
}

/// The action a press (`pressed`) or release of `button` triggers.
pub fn click_action(button: MouseButton, pressed: bool) -> (a: ClickAction)
    ensures
        a == click_binding(button, pressed),
        !pressed ==> a == ClickAction::Ignore,
        pressed && button == MouseButton::Left ==> a == ClickAction::Select,
        pressed && button == MouseButton::Right ==> a == ClickAction::FreeLook,
        button == MouseButton::Other ==> a == ClickAction::Ignore,
{
    if !pressed {
        return ClickAction::Ignore;
    }
    match button {
        MouseButton::Left => ClickAction::Select,
        MouseButton::Right => ClickAction::FreeLook,
        MouseButton::Other => ClickAction::Ignore,
    }
}

/// Which mouse buttons are held (the orbital camera rotates while the left
/// one is held and pans while the right one is).
#[derive(Clone, Copy, PartialEq, Eq, Structural, Debug, Default)]
pub struct MouseButtons {
    pub left: bool,
    pub right: bool,
}

impl MouseButtons {
    /// Records a press (`true`) or release of `button`; other buttons change
    /// nothing.
    pub fn set(&mut self, button: MouseButton, pressed: bool)
        ensures
            final(self).left == (if button == MouseButton::Left {
                pressed
            } else {
                old(self).left
            }),
            final(self).right == (if button == MouseButton::Right {
                pressed
            } else {
                old(self).right
            }),
    {
        match button {
            MouseButton::Left => self.left = pressed,
            MouseButton::Right => self.right = pressed,
            MouseButton::Other => {},
        }
    }
}

/// W and S move forward and backward, A and D strafe left and right, E and Q
/// ascend and descend: six keys for six different movements, each held while
/// its key is down and released with it.
pub proof fn lemma_movement_keys(pressed: bool)
    ensures
        key_binding(Key::W, pressed) == KeyAction::Move(Movement::Forward, pressed),
        key_binding(Key::S, pressed) == KeyAction::Move(Movement::Backward, pressed),
        key_binding(Key::A, pressed) == KeyAction::Move(Movement::StrafeLeft, pressed),
        key_binding(Key::D, pressed) == KeyAction::Move(Movement::StrafeRight, pressed),
        key_binding(Key::E, pressed) == KeyAction::Move(Movement::Ascend, pressed),
        key_binding(Key::Q, pressed) == KeyAction::Move(Movement::Descend, pressed),
        forall|k1: Key, k2: Key|
            (#[trigger] key_binding(k1, pressed)) is Move && key_binding(k1, pressed)
                == #[trigger] key_binding(k2, pressed) ==> k1 == k2,
{
}

/// Releasing a mouse button never triggers a click action; only pressing the
/// left button selects and only pressing the right one switches to free look.
pub proof fn lemma_only_presses_click(button: MouseButton, pressed: bool)
    ensures
        !pressed ==> click_binding(button, pressed) == ClickAction::Ignore,
        click_binding(button, pressed) == ClickAction::Select <==> pressed && button
            == MouseButton::Left,
        click_binding(button, pressed) == ClickAction::FreeLook <==> pressed && button
            == MouseButton::Right,
{
}

/// Pressing a key other than a movement key: the digits 1 to 4 set the speed
/// to 1, 10, 100 and 1000 times real time, Space pauses or resumes, R resets
/// the clock, O switches camera, L the scale mode, V, F and G show or hide
/// velocity vectors, force vectors and the sector grid; every other key does
/// nothing.  No two keys share an action.
pub proof fn lemma_press_bindings()
    ensures
        key_binding(Key::Digit1, true) == KeyAction::SetSpeed(1),
        key_binding(Key::Digit2, true) == KeyAction::SetSpeed(10),
        key_binding(Key::Digit3, true) == KeyAction::SetSpeed(100),
        key_binding(Key::Digit4, true) == KeyAction::SetSpeed(1000),
        key_binding(Key::Space, true) == KeyAction::TogglePause,
        key_binding(Key::R, true) == KeyAction::ResetTime,
        key_binding(Key::O, true) == KeyAction::ToggleCameraMode,
        key_binding(Key::L, true) == KeyAction::ToggleScaleMode,
        key_binding(Key::V, true) == KeyAction::ToggleVelocityVectors,
        key_binding(Key::F, true) == KeyAction::ToggleForceVectors,
        key_binding(Key::G, true) == KeyAction::ToggleSectorGrid,
        key_binding(Key::Other, true) == KeyAction::Ignore,
        forall|k1: Key, k2: Key|
            #[trigger] key_binding(k1, true) != KeyAction::Ignore && key_binding(k1, true)
                == #[trigger] key_binding(k2, true) ==> k1 == k2,
{
}

} // verus!
