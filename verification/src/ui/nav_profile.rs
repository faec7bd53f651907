//! Per-variant navigation profile: input event to canonical navigation action.

use crate::ui::input::{InputEvent, NavDir};
use vstd::prelude::*;

verus! {

/// Canonical UI navigation vocabulary (screen-agnostic).
#[derive(Debug, Clone, Copy, PartialEq, Eq, Structural)]
pub enum NavAction {
    ListPrev,
    ListNext,
    Select,
    Cancel,
    MenuEnter,
    CharCycle(i8),
    CursorMove(i8),
    CaseToggle,
    Digit(char),
    /// Domain / throttle events not remapped by the profile.
    PassThrough(InputEvent),
}

pub trait NavProfile {
    fn map(&self, ev: InputEvent, text_entry: bool) -> Option<NavAction>;
}

/// LongFred joystick mapping: up/down move in lists (or cycle characters while entering
/// text), left/right move the cursor while entering text, the buttons keep their meaning.
pub open spec fn longfred_map(ev: InputEvent, text_entry: bool) -> NavAction {
    match ev {
        InputEvent::Nav(NavDir::Up) => if text_entry { NavAction::CharCycle(-1i8) } else { NavAction::ListPrev },
        InputEvent::Nav(NavDir::Down) => if text_entry { NavAction::CharCycle(1i8) } else { NavAction::ListNext },
        InputEvent::Nav(NavDir::Left) => if text_entry {
            NavAction::CursorMove(-1i8)
        } else {
            NavAction::PassThrough(InputEvent::Nav(NavDir::Left))
        },
        InputEvent::Nav(NavDir::Right) => if text_entry {
            NavAction::CursorMove(1i8)
        } else {
            NavAction::PassThrough(InputEvent::Nav(NavDir::Right))
        },
        InputEvent::OkButton => NavAction::Select,
        InputEvent::Back => NavAction::Cancel,
        InputEvent::Menu => NavAction::MenuEnter,
        InputEvent::CaseToggle => NavAction::CaseToggle,
        InputEvent::Digit(c) => NavAction::Digit(c),
        InputEvent::CharCycle(d) => NavAction::CharCycle(d),
        InputEvent::CursorMove(d) => NavAction::CursorMove(d),
        other => NavAction::PassThrough(other),
    }
}

/// MarkWTech encoder and keypad mapping: the encoder moves in lists (or cycles
/// characters), `#` selects, `*` cancels while entering text and opens the menu otherwise.
pub open spec fn markwtech_map(ev: InputEvent, text_entry: bool) -> NavAction {
    match ev {
        InputEvent::EncoderCounterClockwise => if text_entry { NavAction::CharCycle(-1i8) } else { NavAction::ListPrev },
        InputEvent::EncoderClockwise => if text_entry { NavAction::CharCycle(1i8) } else { NavAction::ListNext },
        InputEvent::Digit(c) => if c == '#' {
            NavAction::Select
        } else if c == '*' {
            if text_entry { NavAction::Cancel } else { NavAction::MenuEnter }
        } else {
            NavAction::Digit(c)
        },
        InputEvent::Menu => NavAction::MenuEnter,
        InputEvent::Back => NavAction::Select,
        InputEvent::OkButton => NavAction::Select,
        other => NavAction::PassThrough(other),
    }
}

/// LongFred standard / mini: 5-way joystick + Stop + Menu center.
#[derive(Clone, Copy, Debug, Default)]
pub struct LongFredNav;

impl NavProfile for LongFredNav {
    fn map(&self, ev: InputEvent, text_entry: bool) -> (r: Option<NavAction>)
        ensures
            r == Some(longfred_map(ev, text_entry)),
    {
        match ev {
            InputEvent::Nav(NavDir::Up) => Some(
                if text_entry {
                    NavAction::CharCycle(-1)
                } else {
                    NavAction::ListPrev
                },
            ),
            InputEvent::Nav(NavDir::Down) => Some(
                if text_entry {
                    NavAction::CharCycle(1)
                } else {
                    NavAction::ListNext
                },
            ),
            InputEvent::Nav(NavDir::Left) => Some(
                if text_entry {
                    NavAction::CursorMove(-1)
                } else {
                    NavAction::PassThrough(InputEvent::Nav(NavDir::Left))
                },
            ),
            InputEvent::Nav(NavDir::Right) => Some(
                if text_entry {
                    NavAction::CursorMove(1)
                } else {
                    NavAction::PassThrough(InputEvent::Nav(NavDir::Right))
                },
            ),
            InputEvent::OkButton => Some(NavAction::Select),
            InputEvent::Back => Some(NavAction::Cancel),
            InputEvent::Menu => Some(NavAction::MenuEnter),
            InputEvent::CaseToggle => Some(NavAction::CaseToggle),
            InputEvent::Digit(c) => Some(NavAction::Digit(c)),
            InputEvent::CharCycle(d) => Some(NavAction::CharCycle(d)),
            InputEvent::CursorMove(d) => Some(NavAction::CursorMove(d)),
            other => Some(NavAction::PassThrough(other)),
        }
    }
}

/// MarkWTech: encoder + keypad (`*` / `#`).
#[derive(Clone, Copy, Debug, Default)]
pub struct MarkwtechNav;

impl NavProfile for MarkwtechNav {
    fn map(&self, ev: InputEvent, text_entry: bool) -> (r: Option<NavAction>)
        ensures
            r == Some(markwtech_map(ev, text_entry)),
    {
        match ev {
            InputEvent::EncoderCounterClockwise => Some(
                if text_entry {
                    NavAction::CharCycle(-1)
                } else {
                    NavAction::ListPrev
                },
            ),
            InputEvent::EncoderClockwise => Some(
                if text_entry {
                    NavAction::CharCycle(1)
                } else {
                    NavAction::ListNext
                },
            ),
            InputEvent::Digit(c) => {
                if c == '#' {
                    Some(NavAction::Select)
                } else if c == '*' {
                    Some(
                        if text_entry {
                            NavAction::Cancel
                        } else {
                            NavAction::MenuEnter
                        },
                    )
                } else {
                    Some(NavAction::Digit(c))
                }
            },
            InputEvent::Menu => Some(NavAction::MenuEnter),
            InputEvent::Back => Some(NavAction::Select),
            InputEvent::OkButton => Some(NavAction::Select),
            other => Some(NavAction::PassThrough(other)),
        }
    }
}

/// Navigation profile of the LongFred standard and mini handsets.
pub fn active() -> (p: LongFredNav) {
    LongFredNav
}

} // verus!
