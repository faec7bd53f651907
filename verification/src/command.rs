//! Protocol-agnostic client commands produced by the domain layer.

use crate::model::{Direction, ShortText};
use crate::text::{dec_digits, parse_unsigned, parse_unsigned_range, push_decimal};
use vstd::prelude::*;
use vstd::string::StringSliceAdditionalSpecFns;

verus! {

#[derive(Clone, Copy, PartialEq, Eq, Debug, Structural)]
pub enum Protocol {
    WiThrottle,
    Z21,
    BigFred,
}

impl Protocol {
    pub open spec fn code(self) -> u8 {
        match self {
            Protocol::WiThrottle => 0,
            Protocol::Z21 => 1,
            Protocol::BigFred => 2,
        }
    }

    /// Stored protocol code.
    pub fn as_u8(self) -> (r: u8)
        ensures
            r == self.code(),
    {
        match self {
            Protocol::WiThrottle => 0,
            Protocol::Z21 => 1,
            Protocol::BigFred => 2,
        }
    }

    /// Inverse of [`Protocol::as_u8`]; unknown codes give `None`.
    pub fn from_u8(v: u8) -> (r: Option<Protocol>)
        ensures
            match r {
                Some(p) => p.code() == v,
                None => v > 2,
            },
    {
        match v {
            0 => Some(Protocol::WiThrottle),
            1 => Some(Protocol::Z21),
            2 => Some(Protocol::BigFred),
            _ => None,
        }
    }
}

/// Numeric DCC loco identity (protocol-neutral).
#[derive(Clone, Copy, PartialEq, Eq, Debug, Structural)]
pub struct LocoId {
    pub addr: u16,
    pub long: bool,
}

/// `S123` / `L341` (either case) or bare digits, which are long from 128 on.
pub open spec fn loco_parse_spec(b: Seq<u8>) -> Option<LocoId> {
    if b.len() > 0 && (b[0] == 83 || b[0] == 115 || b[0] == 76 || b[0] == 108) {
        match parse_unsigned(b.skip(1), 65535) {
            Some(v) => Some(LocoId { addr: v as u16, long: b[0] == 76 || b[0] == 108 }),
            None => None,
        }
    } else {
        match parse_unsigned(b, 65535) {
            Some(v) => Some(LocoId { addr: v as u16, long: v >= 128 }),
            None => None,
        }
    }
}

/// WiThrottle address text of a loco: `S` or `L`, then the decimal address.
pub open spec fn loco_wire(l: LocoId) -> Seq<u8> {
    seq![if l.long { 76u8 } else { 83u8 }] + dec_digits(l.addr as nat)
}

impl LocoId {
    /// Parses `S123` / `L341` / bare digits (long if value >= 128).
    pub fn parse(s: &str) -> (r: Option<LocoId>)
        ensures
            r == loco_parse_spec(s.spec_bytes()),
    {
        let b = s.as_bytes();
        if b.len() > 0 && (b[0] == 83 || b[0] == 115 || b[0] == 76 || b[0] == 108) {
            let long = b[0] == 76 || b[0] == 108;
            assert(b@.subrange(1, b@.len() as int) =~= b@.skip(1));
            match parse_unsigned_range(b, 1, b.len(), 65535) {
                Some(v) => Some(LocoId { addr: v as u16, long }),
                None => None,
            }
        } else {
            assert(b@.subrange(0, b@.len() as int) =~= b@);
            match parse_unsigned_range(b, 0, b.len(), 65535) {
                Some(v) => Some(LocoId { addr: v as u16, long: v >= 128 }),
                None => None,
            }
        }
    }

    /// WiThrottle-style address string (`S123` / `L341`).
    pub fn to_wire(self) -> (r: Vec<u8>)
        ensures
            r@ == loco_wire(self),
            r@.len() <= 6,
    {
        let mut r: Vec<u8> = Vec::new();
        r.push(if self.long {
            76u8
        } else {
            83u8
        });
        push_decimal(&mut r, self.addr as u64);
        proof {
            crate::text::lemma_dec_digits_len(self.addr as nat);
        }
        assert(r@ =~= loco_wire(self));
        r
    }
}

/// A loco identity survives its wire text: parsing [`LocoId::to_wire`] gives it back.
pub proof fn law_loco_wire_roundtrip(l: LocoId)
    ensures
        loco_parse_spec(loco_wire(l)) == Some(l),
{
    let b = loco_wire(l);
    crate::text::lemma_dec_digits_value(l.addr as nat);
    crate::text::lemma_dec_digits_len(l.addr as nat);
    assert(b.skip(1) =~= dec_digits(l.addr as nat));
    let d = dec_digits(l.addr as nat);
    assert(crate::text::unsigned_digits(d) == d);
    assert(parse_unsigned(d, 65535) == Some(l.addr as nat));
}

/// A stored protocol code reads back as the same protocol: codes are small and distinct, so
/// [`Protocol::from_u8`] of [`Protocol::as_u8`] gives the protocol back.
pub proof fn law_protocol_code_roundtrip(p: Protocol)
    ensures
        p.code() <= 2,
        forall|q: Protocol| #[trigger] q.code() == p.code() ==> q == p,
{
}

/// Protocol-agnostic command produced by the domain.
#[derive(Clone, PartialEq, Eq, Debug)]
pub enum ClientCommand {
    AddLoco { throttle: u8, loco: LocoId, name: ShortText },
    ReleaseThrottle { throttle: u8 },
    SetSpeed { throttle: u8, speed: u8 },
    /// `loco: None` addresses every loco on the throttle (WiThrottle `"*"`).
    SetDirection { throttle: u8, loco: Option<LocoId>, dir: Direction },
    EStop { throttle: u8 },
    SetFunction { throttle: u8, func: u8, on: bool, all: bool },
    TrackPower(bool),
    SetDeadManSwitch(bool),
    Steal { throttle: u8, loco: LocoId },
    /// Handset pairing with a six-digit code (BigFred).
    Pair { code: Vec<u8> },
}

} // verus!
