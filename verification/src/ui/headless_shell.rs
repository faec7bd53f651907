//! Headless shell (no menu, permanent drive mode).

use crate::action::Action;
use crate::model::Direction;
use crate::ui::input::InputEvent;
use crate::ui::menu::Intent;
use vstd::prelude::*;

verus! {

/// Passes only drive / programming events; ignores navigation, menu and keypad events.
pub struct HeadlessShell;

/// Events relevant in headless drive mode.
pub open spec fn passes(ev: InputEvent) -> bool {
    match ev {
        InputEvent::SpeedAbsolute(_) | InputEvent::DirectionSet(_) | InputEvent::DirectionToggle
        | InputEvent::FnPress(_) | InputEvent::FnRelease(_) | InputEvent::EStop | InputEvent::Stop
        | InputEvent::LocoSlot(_, _) | InputEvent::EnterProgrammingMode => true,
        _ => false,
    }
}

/// The intent a drive event maps to (speed and programming-mode events are applied by the
/// domain from the raw event, so they map to no intent).
pub open spec fn headless_intent(ev: InputEvent) -> Intent {
    match ev {
        InputEvent::DirectionSet(d) => if d == Direction::Forward {
            Intent::Action(Action::DirectionForward)
        } else {
            Intent::Action(Action::DirectionReverse)
        },
        InputEvent::DirectionToggle => Intent::Action(Action::DirectionToggle),
        InputEvent::FnPress(f) => Intent::Function(f),
        InputEvent::EStop | InputEvent::Stop => Intent::Action(Action::EStop),
        InputEvent::LocoSlot(slot, on) => if on { Intent::Action(Action::Throttle(slot)) } else { Intent::Idle },
        _ => Intent::Idle,
    }
}

impl HeadlessShell {
    pub fn new() -> (s: Self) {
        HeadlessShell
    }

    /// Whether this event is relevant in headless drive mode.
    pub fn should_pass(ev: &InputEvent) -> (r: bool)
        ensures
            r == passes(*ev),
    {
        match ev {
            InputEvent::SpeedAbsolute(_) | InputEvent::DirectionSet(_) | InputEvent::DirectionToggle
            | InputEvent::FnPress(_) | InputEvent::FnRelease(_) | InputEvent::EStop | InputEvent::Stop
            | InputEvent::LocoSlot(_, _) | InputEvent::EnterProgrammingMode => true,
            _ => false,
        }
    }

    /// Maps a drive event to a domain intent.
    pub fn handle(&mut self, ev: InputEvent) -> (r: Intent)
        ensures
            r == headless_intent(ev),
    {
        if !Self::should_pass(&ev) {
            return Intent::Idle;
        }
        match ev {
            InputEvent::DirectionSet(dir) => {
                if dir == Direction::Forward {
                    Intent::Action(Action::DirectionForward)
                } else {
                    Intent::Action(Action::DirectionReverse)
                }
            },
            InputEvent::DirectionToggle => Intent::Action(Action::DirectionToggle),
            InputEvent::FnPress(f) => Intent::Function(f),
            InputEvent::EStop | InputEvent::Stop => Intent::Action(Action::EStop),
            InputEvent::LocoSlot(slot, on) => {
                if on {
                    Intent::Action(Action::Throttle(slot))
                } else {
                    Intent::Idle
                }
            },
            _ => Intent::Idle,
        }
    }
}

} // verus!
