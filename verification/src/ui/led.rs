//! Status LED indication modes.

use vstd::prelude::*;

verus! {

/// Device / drive indication mode (set by domain or boot path).
#[derive(Clone, Copy, PartialEq, Eq, Debug, Structural)]
pub enum LedMode {
    /// Boot / WiFi connecting: STOP blinks 1 Hz.
    Boot,
    /// Pairing active: greens alternate in antiphase, STOP off.
    Pairing,
    /// Driving forward: solid forward green.
    DriveForward,
    /// Driving reverse: solid reverse green.
    DriveReverse,
    /// Emergency stop: solid STOP and blinking direction green.
    EStop,
    /// Lost server connection: STOP blinks 1 Hz (greens keep last direction).
    Disconnect,
}

} // verus!

verus! {

/// Levels of the three status LEDs.
#[derive(Clone, Copy, PartialEq, Eq, Debug, Structural)]
pub struct LedLevels {
    pub stop: bool,
    pub forward: bool,
    pub reverse: bool,
}

/// What the LED presenter remembers between updates.
#[derive(Clone, Copy, PartialEq, Eq, Debug, Structural)]
pub struct LedState {
    pub mode: LedMode,
    /// Blink phase.
    pub phase: bool,
    /// When the phase last changed (or the mode was set), in milliseconds.
    pub last_tick_ms: u64,
}

/// What wakes the LED presenter: a new mode from the domain, or its blink timer.
#[derive(Clone, Copy, PartialEq, Eq, Debug, Structural)]
pub enum LedEvent {
    ModeChanged(LedMode),
    Tick,
}

/// Half period of the blink in each mode.
pub open spec fn blink_half_period_spec(mode: LedMode) -> u64 {
    match mode {
        LedMode::Boot | LedMode::Disconnect => 500,
        LedMode::Pairing | LedMode::EStop => 250,
        LedMode::DriveForward | LedMode::DriveReverse => 1000,
    }
}

/// LED levels for a mode and blink phase: STOP blinks while booting or disconnected, the
/// greens alternate while pairing, one green is steady while driving, and an emergency stop
/// shows a steady STOP with the forward green blinking.
pub open spec fn led_levels_spec(mode: LedMode, phase: bool) -> LedLevels {
    match mode {
        LedMode::Boot | LedMode::Disconnect => LedLevels { stop: phase, forward: false, reverse: false },
        LedMode::Pairing => LedLevels { stop: false, forward: phase, reverse: !phase },
        LedMode::DriveForward => LedLevels { stop: false, forward: true, reverse: false },
        LedMode::DriveReverse => LedLevels { stop: false, forward: false, reverse: true },
        LedMode::EStop => LedLevels { stop: true, forward: phase, reverse: false },
    }
}

/// One presenter update at `now_ms`: a new mode restarts the blink; a timer tick flips
/// the phase once a half period has passed since the last change.
pub open spec fn led_step_spec(s: LedState, ev: LedEvent, now_ms: u64) -> LedState {
    match ev {
        LedEvent::ModeChanged(m) => LedState { mode: m, phase: false, last_tick_ms: now_ms },
        LedEvent::Tick => {
            let elapsed = if now_ms >= s.last_tick_ms { now_ms - s.last_tick_ms } else { 0 };
            if elapsed >= blink_half_period_spec(s.mode) {
                LedState { phase: !s.phase, last_tick_ms: now_ms, ..s }
            } else {
                s
            }
        },
    }
}

pub fn blink_half_period_ms(mode: LedMode) -> (r: u64)
    ensures
        r == blink_half_period_spec(mode),
{
    match mode {
        LedMode::Boot | LedMode::Disconnect => 500,
        LedMode::Pairing | LedMode::EStop => 250,
        LedMode::DriveForward | LedMode::DriveReverse => 1000,
    }
}

pub fn led_levels(mode: LedMode, phase: bool) -> (r: LedLevels)
    ensures
        r == led_levels_spec(mode, phase),
{
    match mode {
        LedMode::Boot | LedMode::Disconnect => LedLevels { stop: phase, forward: false, reverse: false },
        LedMode::Pairing => LedLevels { stop: false, forward: phase, reverse: !phase },
        LedMode::DriveForward => LedLevels { stop: false, forward: true, reverse: false },
        LedMode::DriveReverse => LedLevels { stop: false, forward: false, reverse: true },
        LedMode::EStop => LedLevels { stop: true, forward: phase, reverse: false },
    }
}

impl LedState {
    /// The presenter's state at start-up: booting, phase off.
    pub fn new(now_ms: u64) -> (s: LedState)
        ensures
            s == (LedState { mode: LedMode::Boot, phase: false, last_tick_ms: now_ms }),
    {
        LedState { mode: LedMode::Boot, phase: false, last_tick_ms: now_ms }
    }

    /// Applies one wake-up and gives the LED levels to drive.
    pub fn step(&mut self, ev: LedEvent, now_ms: u64) -> (r: LedLevels)
        ensures
            *final(self) == led_step_spec(*old(self), ev, now_ms),
            r == led_levels_spec(final(self).mode, final(self).phase),
    {
        match ev {
            LedEvent::ModeChanged(m) => {
                self.mode = m;
                self.phase = false;
                self.last_tick_ms = now_ms;
            },
            LedEvent::Tick => {
                let elapsed: u64 = if now_ms >= self.last_tick_ms {
                    now_ms - self.last_tick_ms
                } else {
                    0
                };
                if elapsed >= blink_half_period_ms(self.mode) {
                    self.phase = !self.phase;
                    self.last_tick_ms = now_ms;
                }
            },
        }
        led_levels(self.mode, self.phase)
    }
}

/// While pairing the two greens always show opposite levels, and in every mode at most
/// one green is lit.
pub proof fn law_led_greens(mode: LedMode, phase: bool)
    ensures
        mode == LedMode::Pairing ==> led_levels_spec(mode, phase).forward != led_levels_spec(mode, phase).reverse,
        !(led_levels_spec(mode, phase).forward && led_levels_spec(mode, phase).reverse),
{
}

/// The blink phase flips at most once per half period: a tick sooner than that after the
/// last change keeps the levels.
pub proof fn law_led_blink_rate(s: LedState, now_ms: u64)
    requires
        s.last_tick_ms <= now_ms < s.last_tick_ms + blink_half_period_spec(s.mode),
    ensures
        led_step_spec(s, LedEvent::Tick, now_ms) == s,
{
}

/// While driving, exactly the green of the drive direction is lit, steadily (the same at
/// either blink phase), and STOP is dark.
pub proof fn law_led_drive_direction(mode: LedMode, phase: bool)
    requires
        mode == LedMode::DriveForward || mode == LedMode::DriveReverse,
    ensures
        led_levels_spec(mode, phase).forward == (mode == LedMode::DriveForward),
        led_levels_spec(mode, phase).reverse == (mode == LedMode::DriveReverse),
        !led_levels_spec(mode, phase).stop,
        led_levels_spec(mode, phase) == led_levels_spec(mode, !phase),
{
}

/// The reverse green is lit only while driving in reverse or pairing, and the forward green
/// never while driving in reverse.
pub proof fn law_led_reverse_only_when_reversing(mode: LedMode, phase: bool)
    ensures
        led_levels_spec(mode, phase).reverse ==> (mode == LedMode::DriveReverse || mode == LedMode::Pairing),
        mode == LedMode::DriveReverse ==> !led_levels_spec(mode, phase).forward,
{
}

/// Timer ticks never change the mode: after the domain sets a mode, the LEDs show that mode
/// until the next mode change.
pub proof fn law_led_tick_keeps_mode(s: LedState, now_ms: u64)
    ensures
        led_step_spec(s, LedEvent::Tick, now_ms).mode == s.mode,
{
}

/// While booting or disconnected only STOP is used, and it blinks (it differs between the
/// two phases); in an emergency stop STOP is lit steadily, the forward green blinks and the
/// reverse green is dark.
pub proof fn law_led_alerts(mode: LedMode, phase: bool)
    ensures
        (mode == LedMode::Boot || mode == LedMode::Disconnect) ==> {
            &&& !led_levels_spec(mode, phase).forward
            &&& !led_levels_spec(mode, phase).reverse
            &&& led_levels_spec(mode, phase).stop != led_levels_spec(mode, !phase).stop
        },
        mode == LedMode::EStop ==> {
            &&& led_levels_spec(mode, phase).stop
            &&& !led_levels_spec(mode, phase).reverse
            &&& led_levels_spec(mode, phase).forward != led_levels_spec(mode, !phase).forward
        },
{
}

} // verus!
