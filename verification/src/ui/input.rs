//! Input events produced by the handset's buttons, joystick, encoder and keypad.

use crate::model::Direction;
use vstd::prelude::*;

verus! {

/// Joystick direction.
#[derive(Clone, Copy, Debug, PartialEq, Eq, Structural)]
pub enum NavDir {
    Up,
    Down,
    Left,
    Right,
}

/// One input event.
#[derive(Clone, Copy, Debug, PartialEq, Eq, Structural)]
pub enum InputEvent {
    /// Analog speed 0..=126.
    SpeedAbsolute(u8),
    DirectionSet(Direction),
    DirectionToggle,
    /// DCC function key pressed (0..=31).
    FnPress(u8),
    /// DCC function key released.
    FnRelease(u8),
    EStop,
    Stop,
    /// Loco slot key: slot and whether it is pressed.
    LocoSlot(u8, bool),
    EnterProgrammingMode,
    Nav(NavDir),
    /// The OK button.
    OkButton,
    Back,
    Menu,
    CaseToggle,
    Digit(char),
    CharCycle(i8),
    CursorMove(i8),
    EncoderClockwise,
    EncoderCounterClockwise,
    EncoderButton,
}

} // verus!
