//! Shared data model: directions, track power, throttle characters, limits.

use vstd::prelude::*;

verus! {

pub const MAX_THROTTLES: usize = 9;

pub const MAX_FUNCTIONS: usize = 32;

pub const MAX_LOCOS: usize = 10;

pub const MAX_SPEED: u8 = 126;

pub const SHORT_DCC_ADDRESS_LIMIT: u32 = 127;

pub const MAX_FOUND_SSIDS: usize = 60;

pub const MAX_FOUND_SERVERS: usize = 5;

pub const MAX_ROSTER: usize = 70;

/// Capacity in UTF-8 bytes of a loco address text.
pub const LOCO_ADDR_CAP: usize = 12;

/// Capacity in UTF-8 bytes of a short text.
pub const SHORT_TEXT_CAP: usize = 32;

/// Capacity in UTF-8 bytes of a long text.
pub const LONG_TEXT_CAP: usize = 64;

pub const PROPERTY_SEPARATOR: &'static str = "<;>";

pub const ENTRY_SEPARATOR: &'static str = "]\\[";

pub const SEGMENT_SEPARATOR: &'static str = "}|{";

/// Loco address text (at most [`LOCO_ADDR_CAP`] UTF-8 bytes).
pub type LocoAddr = Vec<u8>;

/// Short text (at most [`SHORT_TEXT_CAP`] UTF-8 bytes).
pub type ShortText = Vec<u8>;

/// Long text (at most [`LONG_TEXT_CAP`] UTF-8 bytes).
pub type LongText = Vec<u8>;

/// Bytes of [`PROPERTY_SEPARATOR`].
pub open spec fn property_sep() -> Seq<u8> {
    seq![60u8, 59u8, 62u8]
}

/// Bytes of [`ENTRY_SEPARATOR`].
pub open spec fn entry_sep() -> Seq<u8> {
    seq![93u8, 92u8, 91u8]
}

/// Bytes of [`SEGMENT_SEPARATOR`].
pub open spec fn segment_sep() -> Seq<u8> {
    seq![125u8, 124u8, 123u8]
}

pub fn property_sep_bytes() -> (r: Vec<u8>)
    ensures
        r@ == property_sep(),
{
    let r: Vec<u8> = vec![60u8, 59u8, 62u8];
    assert(r@ =~= property_sep());
    r
}

pub fn entry_sep_bytes() -> (r: Vec<u8>)
    ensures
        r@ == entry_sep(),
{
    let r: Vec<u8> = vec![93u8, 92u8, 91u8];
    assert(r@ =~= entry_sep());
    r
}

pub fn segment_sep_bytes() -> (r: Vec<u8>)
    ensures
        r@ == segment_sep(),
{
    let r: Vec<u8> = vec![125u8, 124u8, 123u8];
    assert(r@ =~= segment_sep());
    r
}

#[derive(Debug, Clone, Copy, PartialEq, Eq, Structural)]
pub enum Direction {
    Reverse,
    Forward,
}

impl Direction {
    pub open spec fn from_wire_spec(c: char) -> Direction {
        if c == '0' {
            Direction::Reverse
        } else {
            Direction::Forward
        }
    }

    pub open spec fn to_wire_spec(self) -> char {
        match self {
            Direction::Reverse => '0',
            Direction::Forward => '1',
        }
    }

    /// `'0'` is reverse; every other character is forward.
    pub fn from_wire(c: char) -> (d: Direction)
        ensures
            d == Direction::from_wire_spec(c),
    {
        if c == '0' {
            Direction::Reverse
        } else {
            Direction::Forward
        }
    }

    pub fn to_wire(self) -> (c: char)
        ensures
            c == self.to_wire_spec(),
    {
        match self {
            Direction::Reverse => '0',
            Direction::Forward => '1',
        }
    }
}

#[derive(Debug, Clone, Copy, PartialEq, Eq, Structural)]
pub enum TrackPower {
    Off,
    On,
    Unknown,
}

impl TrackPower {
    pub open spec fn from_wire_spec(c: char) -> TrackPower {
        if c == '0' {
            TrackPower::Off
        } else if c == '1' {
            TrackPower::On
        } else {
            TrackPower::Unknown
        }
    }

    pub fn from_wire(c: char) -> (t: TrackPower)
        ensures
            t == TrackPower::from_wire_spec(c),
    {
        if c == '0' {
            TrackPower::Off
        } else if c == '1' {
            TrackPower::On
        } else {
            TrackPower::Unknown
        }
    }

    /// `"1"` when on, `"0"` otherwise.
    pub fn to_wire(self) -> (s: &'static str)
        ensures
            s == (if self == TrackPower::On { "1" } else { "0" }),
    {
        match self {
            TrackPower::Off => "0",
            TrackPower::On => "1",
            TrackPower::Unknown => "0",
        }
    }
}

/// Throttle slot index to WiThrottle throttle character (`'0'` + index).
pub fn throttle_char(index: usize) -> (c: char)
    requires
        index % 256 < 208,
    ensures
        c as int == 48 + index % 256,
{
    let i: u8 = (index % 256) as u8;
    (48u8 + i) as char
}

/// Wire character of throttle id `t`.
pub open spec fn throttle_ch(t: u8) -> char {
    ((48 + t) as u32) as char
}

/// Throttle id to wire character (`'0'` + throttle).
pub fn throttle_char_u8(throttle: u8) -> (c: char)
    requires
        throttle < 208,
    ensures
        c as int == 48 + throttle,
        c == throttle_ch(throttle),
{
    (48u8 + throttle) as char
}

/// Wire throttle character (`'0'`..`'8'`) to slot index.
pub fn throttle_index(c: char) -> (r: Option<usize>)
    ensures
        r == (if 48 <= c as int && (c as int) < 48 + MAX_THROTTLES {
            Some((c as int - 48) as usize)
        } else {
            None
        }),
{
    if c >= '0' && c <= '9' {
        let i: usize = ((c as u32) - 48) as usize;
        if i < MAX_THROTTLES {
            return Some(i);
        }
    }
    None
}

/// Opposite running direction.
pub fn opposite(dir: Direction) -> (r: Direction)
    ensures
        r != dir,
{
    match dir {
        Direction::Forward => Direction::Reverse,
        Direction::Reverse => Direction::Forward,
    }
}

/// Whether track power is known-on.
pub fn track_power_on(tp: TrackPower) -> (r: bool)
    ensures
        r == (tp == TrackPower::On),
{
    match tp {
        TrackPower::On => true,
        _ => false,
    }
}

/// A direction survives its wire character.
pub proof fn law_direction_wire_roundtrip(d: Direction)
    ensures
        Direction::from_wire_spec(d.to_wire_spec()) == d,
{
}

/// Roster entry from the command station.
#[derive(Debug, Clone, PartialEq, Eq)]
pub struct RosterEntry {
    pub name: ShortText,
    pub address: i32,
    pub length: char,
}

/// State of one MultiThrottle slot.
#[derive(Debug, Clone)]
pub struct ThrottleSlot {
    pub speed: u8,
    pub direction: Direction,
    /// Display name of the lead locomotive, when selected from a named roster.
    pub name: ShortText,
    /// Per-loco facing direction in the consist (parallel to `consist`).
    pub facing: Vec<Direction>,
    pub functions: Vec<bool>,
    pub labels: Vec<ShortText>,
    pub consist: Vec<LocoAddr>,
    pub speed_step: u8,
    /// Cursor in the effective loco catalogue for list-walk.
    pub list_idx: Option<usize>,
}

impl ThrottleSlot {
    /// Well-formedness: one function flag and one label per function number, bounded consist.
    pub open spec fn wf(&self) -> bool {
        &&& self.functions@.len() == MAX_FUNCTIONS
        &&& self.labels@.len() == MAX_FUNCTIONS
        &&& self.consist@.len() <= MAX_LOCOS
        &&& self.facing@.len() <= MAX_LOCOS
    }

    pub fn new(speed_step: u8) -> (s: ThrottleSlot)
        ensures
            s.wf(),
            s.speed == 0,
            s.direction == Direction::Forward,
            s.name@.len() == 0,
            s.facing@.len() == 0,
            s.consist@.len() == 0,
            forall|i: int| 0 <= i < MAX_FUNCTIONS ==> !s.functions@[i],
            forall|i: int| 0 <= i < MAX_FUNCTIONS ==> s.labels@[i]@.len() == 0,
            s.speed_step == speed_step,
            s.list_idx is None,
    {
        let mut functions: Vec<bool> = Vec::new();
        let mut labels: Vec<ShortText> = Vec::new();
        let mut i: usize = 0;
        while i < MAX_FUNCTIONS
            invariant
                i <= MAX_FUNCTIONS,
                functions@.len() == i,
                labels@.len() == i,
                forall|j: int| 0 <= j < i ==> !functions@[j],
                forall|j: int| 0 <= j < i ==> labels@[j]@.len() == 0,
            decreases MAX_FUNCTIONS - i,
        {
            functions.push(false);
            labels.push(Vec::new());
            i = i + 1;
        }
        ThrottleSlot {
            speed: 0,
            direction: Direction::Forward,
            name: Vec::new(),
            facing: Vec::new(),
            functions,
            labels,
            consist: Vec::new(),
            speed_step,
            list_idx: None,
        }
    }

    pub fn throttle_char(&self, index: usize) -> (c: char)
        requires
            index % 256 < 208,
        ensures
            c as int == 48 + index % 256,
    {
        throttle_char(index)
    }

    pub fn has_loco(&self) -> (r: bool)
        ensures
            r == (self.consist@.len() > 0),
    {
        self.consist.len() > 0
    }
}

} // verus!
