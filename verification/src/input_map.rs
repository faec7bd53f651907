//! Function-key mapping and chord hold detection.

use vstd::prelude::*;

verus! {

/// Map a physical function key (0..=8) through the shift layers: no shift gives `key`,
/// shift 1 alone `key + 9`, shift 2 (with or without shift 1) `key + 18`.
pub fn map_fn_key(key: u8, shift1: bool, shift2: bool) -> (r: u8)
    requires
        key <= 8,
    ensures
        r == (if shift2 { key + 18 } else if shift1 { key + 9 } else { key as int }),
{
    if shift2 {
        key + 18
    } else if shift1 {
        key + 9
    } else {
        key
    }
}

/// Two-button chord hold detector.
#[derive(Clone, Copy, Debug, PartialEq, Eq)]
pub struct ChordState {
    /// When both inputs became held (if they are).
    pub both_since_ms: Option<u64>,
    /// Whether this hold has already fired.
    pub fired: bool,
}

/// One update: releasing either input resets; holding both starts (or keeps) the hold
/// timer, and fires once when it has run for `hold_ms`.
pub open spec fn chord_step(c: ChordState, a: bool, b: bool, now_ms: u64, hold_ms: u64) -> (ChordState, bool) {
    if !(a && b) {
        (ChordState { both_since_ms: None, fired: false }, false)
    } else {
        let since = match c.both_since_ms {
            Some(t) => t,
            None => now_ms,
        };
        let c1 = ChordState { both_since_ms: Some(since), fired: c.fired };
        if c.fired {
            (c1, false)
        } else if (if now_ms >= since { now_ms - since } else { 0 }) >= hold_ms {
            (ChordState { fired: true, ..c1 }, true)
        } else {
            (c1, false)
        }
    }
}

impl Default for ChordState {
    fn default() -> (c: ChordState)
        ensures
            c.both_since_ms is None,
            !c.fired,
    {
        ChordState { both_since_ms: None, fired: false }
    }
}

impl ChordState {
    pub fn new() -> (c: ChordState)
        ensures
            c.both_since_ms is None,
            !c.fired,
    {
        ChordState { both_since_ms: None, fired: false }
    }

    /// Returns `true` once when both `a` and `b` have been held for at least `hold_ms`
    /// since they first became both pressed.
    pub fn update(&mut self, a: bool, b: bool, now_ms: u64, hold_ms: u64) -> (r: bool)
        ensures
            (*final(self), r) == chord_step(*old(self), a, b, now_ms, hold_ms),
    {
        if !(a && b) {
            self.both_since_ms = None;
            self.fired = false;
            return false;
        }
        let since = match self.both_since_ms {
            Some(t) => t,
            None => {
                self.both_since_ms = Some(now_ms);
                now_ms
            },
        };
        if self.fired {
            return false;
        }
        let held: u64 = if now_ms >= since {
            now_ms - since
        } else {
            0
        };
        if held >= hold_ms {
            self.fired = true;
            return true;
        }
        false
    }
}

/// A chord fires at most once per hold: after firing, updates with both inputs still
/// held never fire again, and only a release clears the fired state.
pub proof fn law_chord_fires_once(c: ChordState, now1: u64, now2: u64, hold: u64)
    ensures
        ({
            let (c1, fired1) = chord_step(c, true, true, now1, hold);
            fired1 ==> {
                let (c2, fired2) = chord_step(c1, true, true, now2, hold);
                !fired2 && c2.fired
            }
        }),
{
}

/// Firing needs both inputs held: an update with either released never fires and
/// resets the detector.
pub proof fn law_chord_release_resets(c: ChordState, a: bool, b: bool, now: u64, hold: u64)
    requires
        !(a && b),
    ensures
        chord_step(c, a, b, now, hold) == (ChordState { both_since_ms: None, fired: false }, false),
{
}

/// After a reset, a hold fires exactly when it has lasted `hold` (measured from the first
/// update with both held).
pub proof fn law_chord_fires_after_hold(start: u64, now: u64, hold: u64)
    requires
        start <= now,
    ensures
        ({
            let (c1, f1) = chord_step(ChordState { both_since_ms: None, fired: false }, true, true, start, hold);
            let (c2, f2) = chord_step(c1, true, true, now, hold);
            (f1 <==> hold == 0) && (!f1 ==> (f2 <==> now - start >= hold))
        }),
{
}

} // verus!
