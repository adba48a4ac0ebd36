//! Input state: the lifecycle of a key and the actions keys map to.

use vstd::prelude::*;

verus! {

/// The state of one key across frames: it is pressed on the frame the
/// key goes down, held while it stays down, released on the frame it
/// goes up, and idle otherwise.
#[derive(Debug, Clone, Copy, PartialEq, Eq, Structural)]
pub enum KeyState {
    Pressed,
    Held,
    Released,
    Idle,
}

/// The game actions keys can be bound to.
#[derive(Debug, Clone, Copy, PartialEq, Eq, Structural)]
pub enum InputAction {
    MoveLeft,
    MoveRight,
    MoveUp,
    MoveDown,
    Jump,
    Action,
}

/// The next state of a key given whether it was down on the previous
/// frame and is down now.
pub fn key_transition(was_pressed: bool, is_pressed: bool) -> (r: KeyState)
    ensures
        was_pressed && is_pressed ==> r == KeyState::Held,
        !was_pressed && is_pressed ==> r == KeyState::Pressed,
        was_pressed && !is_pressed ==> r == KeyState::Released,
        !was_pressed && !is_pressed ==> r == KeyState::Idle,
{
    match (was_pressed, is_pressed) {
        (true, true) => KeyState::Held,
        (false, true) => KeyState::Pressed,
        (true, false) => KeyState::Released,
        (false, false) => KeyState::Idle,
    }
}

/// A key's state after a raw keyboard event: going down moves idle and
/// released keys to pressed and keeps down keys held; going up moves
/// down keys to released and keeps up keys idle.
pub fn key_event(current: KeyState, pressed: bool) -> (r: KeyState)
    ensures
        pressed ==> r == (if current is Idle || current is Released {
            KeyState::Pressed
        } else {
            KeyState::Held
        }),
        !pressed ==> r == (if current is Pressed || current is Held {
            KeyState::Released
        } else {
            KeyState::Idle
        }),
{
    if pressed {
        match current {
            KeyState::Idle | KeyState::Released => KeyState::Pressed,
            KeyState::Pressed | KeyState::Held => KeyState::Held,
        }
    } else {
        match current {
            KeyState::Pressed | KeyState::Held => KeyState::Released,
            KeyState::Released | KeyState::Idle => KeyState::Idle,
        }
    }
}

} // verus!
