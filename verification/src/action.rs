//! Actions assigned to keys/buttons (shared by domain reducer and UI intents).

use vstd::prelude::*;

verus! {

/// Command issued by a key, menu item, or screen.
#[derive(Debug, Clone, Copy, PartialEq, Eq, Structural)]
pub enum Action {
    /// Do nothing.
    Nothing,
    /// DCC function 0-31.
    Function(u8),
    SpeedStop,
    SpeedUp,
    SpeedDown,
    SpeedUpFast,
    SpeedDownFast,
    SpeedMultiplier,
    /// Stop if moving, otherwise toggle direction.
    SpeedStopThenToggleDirection,
    /// Set throttle speed 0..=126 from an analog pot.
    SpeedSet(u8),
    EStop,
    EStopCurrentLoco,
    DirectionToggle,
    DirectionForward,
    DirectionReverse,
    MaxThrottleIncrease,
    MaxThrottleDecrease,
    PowerToggle,
    PowerOn,
    PowerOff,
    ShowHideBattery,
    Sleep,
    NextThrottle,
    /// Switch to throttle 1-6.
    Throttle(u8),
    /// User command 1-7.
    Custom(u8),
}

impl Action {
    /// Actions that do not touch a loco: no-op, track power, battery, sleep, throttle
    /// selection and user commands.
    pub open spec fn is_loco_action_spec(self) -> bool {
        !(self is Nothing || self is PowerToggle || self is PowerOn || self is PowerOff
            || self is ShowHideBattery || self is Sleep || self is NextThrottle
            || self is Throttle || self is Custom)
    }

    /// Whether the action affects a loco.
    pub fn is_loco_action(self) -> (r: bool)
        ensures
            r == self.is_loco_action_spec(),
    {
        match self {
            Action::Nothing | Action::PowerToggle | Action::PowerOn | Action::PowerOff
            | Action::ShowHideBattery | Action::Sleep | Action::NextThrottle | Action::Throttle(_)
            | Action::Custom(_) => false,
            _ => true,
        }
    }
}

} // verus!
