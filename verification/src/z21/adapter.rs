//! Z21 LAN protocol adapter (UDP X-BUS frames).

use crate::adapter::{wb_append, wire_extend, wire_push, WireBuf};
use crate::command::{loco_wire, ClientCommand, LocoId};
use crate::events::{events_view, EventModel, ServerEvent};
use crate::model::{throttle_ch, throttle_char, Direction, TrackPower};
use crate::persist::{le16, le32};
use vstd::prelude::*;

verus! {

pub const HDR_XBUS: u16 = 0x0040;

/// Locos the adapter tracks at once.
pub const MAX_Z21_LOCOS: usize = 16;

/// One subscribed loco on a throttle, with its last known drive state and function bits.
#[derive(Clone, Copy, Debug, PartialEq, Eq)]
pub struct Slot {
    pub throttle: u8,
    pub addr: u16,
    pub long: bool,
    pub steps: u8,
    pub speed: u8,
    pub dir: Direction,
    pub funcs: u32,
}

/// Z21 session state: the subscribed locos.
#[derive(Debug)]
pub struct Z21Adapter {
    pub locos: Vec<Slot>,
}

/// XOR of all bytes (X-BUS checksum).
pub open spec fn xor_spec(x: Seq<u8>) -> u8
    decreases x.len(),
{
    if x.len() == 0 {
        0
    } else {
        xor_spec(x.drop_last()) ^ x.last()
    }
}

pub fn xor_sum(x: &[u8]) -> (r: u8)
    ensures
        r == xor_spec(x@),
{
    let mut a: u8 = 0;
    let mut i: usize = 0;
    while i < x.len()
        invariant
            i <= x@.len(),
            a == xor_spec(x@.take(i as int)),
        decreases x@.len() - i,
    {
        assert(x@.take(i + 1).drop_last() =~= x@.take(i as int));
        a = a ^ x[i];
        i = i + 1;
    }
    assert(x@.take(x@.len() as int) =~= x@);
    a
}

/// A LAN frame: length, header, data.
pub open spec fn frame_spec(out: Seq<u8>, header: u16, data: Seq<u8>) -> Seq<u8> {
    wb_append(wb_append(wb_append(out, le16((4 + data.len()) as u16)), le16(header)), data)
}

/// An X-BUS frame: length, X-BUS header, the X-BUS bytes and their checksum.
pub open spec fn xbus_spec(out: Seq<u8>, x: Seq<u8>) -> Seq<u8> {
    wb_append(
        wb_append(wb_append(wb_append(out, le16((5 + x.len()) as u16)), le16(HDR_XBUS)), x),
        seq![xor_spec(x)],
    )
}

fn put_u16(out: &mut WireBuf, v: u16)
    ensures
        final(out)@ == wb_append(old(out)@, le16(v)),
{
    let b: Vec<u8> = vec![(v % 256) as u8, (v / 256) as u8];
    assert(b@ =~= le16(v));
    wire_extend(out, b.as_slice());
}

pub fn put_frame(out: &mut WireBuf, header: u16, data: &[u8])
    requires
        data@.len() + 4 <= usize::MAX,
    ensures
        final(out)@ == frame_spec(old(out)@, header, data@),
{
    let len: u16 = (4 + data.len()) as u16;
    put_u16(out, len);
    put_u16(out, header);
    wire_extend(out, data);
}

pub fn put_xbus(out: &mut WireBuf, xbus: &[u8])
    requires
        xbus@.len() + 5 <= usize::MAX,
    ensures
        final(out)@ == xbus_spec(old(out)@, xbus@),
{
    let len: u16 = (4 + xbus.len() + 1) as u16;
    put_u16(out, len);
    put_u16(out, HDR_XBUS);
    wire_extend(out, xbus);
    wire_push(out, xor_sum(xbus));
}

/// High address byte: bits 8..13 of the address, with the top two bits set for long
/// addresses (flagged long, or 128 and above).
pub open spec fn addr_hi(addr: u16, long: bool) -> u8 {
    if long || addr >= 128 {
        (((addr >> 8) & 0x3F) as u8) | 0xC0
    } else {
        ((addr >> 8) & 0x3F) as u8
    }
}

pub open spec fn addr_lo(addr: u16) -> u8 {
    (addr & 0xFF) as u8
}

/// Z21 address bytes (MSB, LSB) of a loco.
pub fn addr_bytes(addr: u16, long: bool) -> (r: [u8; 2])
    ensures
        r@ == seq![addr_hi(addr, long), addr_lo(addr)],
{
    let mut msb: u8 = ((addr >> 8) & 0x3F) as u8;
    if long || addr >= 128 {
        msb = msb | 0xC0;
    }
    let mut r: [u8; 2] = [0u8; 2];
    r[0] = msb;
    r[1] = (addr & 0xFF) as u8;
    assert(r@ =~= seq![addr_hi(addr, long), addr_lo(addr)]);
    r
}

pub open spec fn steps_db0_spec(steps: u8) -> u8 {
    if steps == 14 {
        0x10
    } else if steps == 28 {
        0x12
    } else {
        0x13
    }
}

/// DB0 of a drive command for a speed-step mode (14, 28, otherwise 128).
pub fn steps_db0(steps: u8) -> (r: u8)
    ensures
        r == steps_db0_spec(steps),
{
    match steps {
        14 => 0x10,
        28 => 0x12,
        _ => 0x13,
    }
}

pub open spec fn min_int(a: int, b: int) -> int {
    if a < b {
        a
    } else {
        b
    }
}

/// 28-step code of a domain speed: step `s = clamp(speed * 28 / 126, 1, 28)`, sent as
/// `(s + 3) / 2` in the low nibble and the parity of `s + 3` in bit 4.
pub open spec fn encode28_spec(speed: u8) -> u8 {
    if speed == 0 {
        0
    } else {
        let q = (speed as int * 28 / 126) as u8;
        let s: u8 = if q < 1 {
            1
        } else if q > 28 {
            28
        } else {
            q
        };
        ((((s + 3) % 2) as u8) << 4) | ((((s + 3) / 2) as u8) & 0x0F)
    }
}

fn encode28(domain_speed: u8) -> (r: u8)
    ensures
        r == encode28_spec(domain_speed),
{
    if domain_speed == 0 {
        return 0;
    }
    let q: u8 = (domain_speed as u16 * 28 / 126) as u8;
    let mut s: u8 = if q < 1 {
        1
    } else {
        q
    };
    if s > 28 {
        s = 28;
    }
    let speed_bits: u8 = (s + 3) / 2;
    let speed_bit5: u8 = (s + 3) % 2;
    (speed_bit5 << 4) | (speed_bits & 0x0F)
}

/// Z21 DB3 of a domain speed (0..=126 on the 128-step scale) for a speed-step mode:
/// direction in bit 7, then the step code (stop is 0).
pub open spec fn encode_db3_spec(speed: u8, dir: Direction, steps: u8) -> u8 {
    let r: u8 = if dir == Direction::Forward {
        0x80
    } else {
        0x00
    };
    if speed == 0 {
        r
    } else if steps == 14 {
        r | (min_int(speed as int * 14 / 126 + 1, 15) as u8)
    } else if steps == 28 {
        r | encode28_spec(speed)
    } else {
        r | (min_int(speed as int + 1, 127) as u8)
    }
}

pub fn encode_db3(speed: u8, dir: Direction, steps: u8) -> (r: u8)
    ensures
        r == encode_db3_spec(speed, dir, steps),
{
    let r: u8 = if dir == Direction::Forward {
        0x80
    } else {
        0x00
    };
    if speed == 0 {
        return r;
    }
    match steps {
        14 => {
            let mut v: u16 = speed as u16 * 14 / 126 + 1;
            if v > 15 {
                v = 15;
            }
            r | (v as u8)
        },
        28 => r | encode28(speed),
        _ => {
            let mut v: u16 = speed as u16 + 1;
            if v > 127 {
                v = 127;
            }
            r | (v as u8)
        },
    }
}

/// Domain speed and direction from `LAN_X_LOCO_INFO` DB2 (step mode in bits 0..2) and DB3.
pub open spec fn decode_db3_spec(db2: u8, db3: u8) -> (u8, Direction) {
    let forward = if db3 & 0x80 != 0 {
        Direction::Forward
    } else {
        Direction::Reverse
    };
    let v: u8 = db3 & 0x7F;
    let mode = db2 & 0x07;
    if mode == 0 {
        let raw = v & 0x0F;
        (if raw <= 1 {
            0u8
        } else {
            min_int((raw - 1) * 126 / 14, 126) as u8
        }, forward)
    } else if mode == 2 {
        let raw = (v & 0x0F) * 2 + ((v >> 4) & 0x01);
        (if raw <= 3 {
            0u8
        } else {
            min_int((raw - 3) * 126 / 28, 126) as u8
        }, forward)
    } else {
        (if v <= 1 {
            0u8
        } else {
            min_int(v - 1, 126) as u8
        }, forward)
    }
}

pub fn decode_db3(db2: u8, db3: u8) -> (r: (u8, Direction))
    ensures
        r == decode_db3_spec(db2, db3),
{
    let forward = if db3 & 0x80 != 0 {
        Direction::Forward
    } else {
        Direction::Reverse
    };
    let v: u8 = db3 & 0x7F;
    let mode = db2 & 0x07;
    if mode == 0 {
        let raw: u8 = v & 0x0F;
        let speed: u8 = if raw <= 1 {
            0
        } else {
            let mut s: u16 = (raw as u16 - 1) * 126 / 14;
            if s > 126 {
                s = 126;
            }
            s as u8
        };
        (speed, forward)
    } else if mode == 2 {
        let speed_bits: u8 = v & 0x0F;
        let speed_bit5: u8 = (v >> 4) & 0x01;
        assert(speed_bits <= 15 && speed_bit5 <= 1) by (bit_vector)
            requires
                speed_bits == v & 0x0F,
                speed_bit5 == (v >> 4) & 0x01,
        ;
        let raw: u8 = speed_bits * 2 + speed_bit5;
        let speed: u8 = if raw <= 3 {
            0
        } else {
            let mut s: u16 = (raw - 3) as u16 * 126 / 28;
            if s > 126 {
                s = 126;
            }
            s as u8
        };
        (speed, forward)
    } else {
        let speed: u8 = if v <= 1 {
            0
        } else {
            let d = v - 1;
            if d > 126 {
                126
            } else {
                d
            }
        };
        (speed, forward)
    }
}

/// On the 128-step scale, decoding the DB3 of a domain speed (0..=126) and direction
/// gives them back.
pub proof fn law_db3_roundtrip_128(speed: u8, dir: Direction)
    requires
        speed <= 126,
    ensures
        decode_db3_spec(0x13, encode_db3_spec(speed, dir, 128)) == (speed, dir),
{
    let r: u8 = if dir == Direction::Forward {
        0x80
    } else {
        0x00
    };
    let db3 = encode_db3_spec(speed, dir, 128);
    assert(0x13u8 & 0x07u8 == 3u8) by (bit_vector);
    if speed == 0 {
        assert(db3 == r);
        assert(0x80u8 & 0x80u8 != 0 && 0x00u8 & 0x80u8 == 0 && 0x80u8 & 0x7Fu8 == 0
            && 0x00u8 & 0x7Fu8 == 0) by (bit_vector);
    } else {
        let v = (speed + 1) as u8;
        assert(db3 == r | v);
        assert(((r == 0x80u8 || r == 0u8) && 1 <= v <= 127) ==> (((r | v) & 0x7Fu8) == v && (((r
            | v) & 0x80u8 != 0) == (r == 0x80u8)))) by (bit_vector);
    }
}

/// The step code of a non-zero speed sits in the low seven bits (at most `0x7F`).
proof fn lemma_db3_speed_bits(speed: u8, steps: u8)
    requires
        speed > 0,
    ensures
        ({
            let v: u8 = if steps == 14 {
                min_int(speed as int * 14 / 126 + 1, 15) as u8
            } else if steps == 28 {
                encode28_spec(speed)
            } else {
                min_int(speed as int + 1, 127) as u8
            };
            v <= 0x7F
        }),
{
    if steps == 28 {
        let q = (speed as int * 28 / 126) as u8;
        let s: u8 = if q < 1 { 1 } else if q > 28 { 28 } else { q };
        let a = ((s + 3) % 2) as u8;
        let b = ((s + 3) / 2) as u8;
        assert(a <= 1);
        assert((a << 4u8) | (b & 0x0Fu8) <= 0x1Fu8) by (bit_vector)
            requires
                a <= 1,
        ;
    }
}

/// The direction travels in bit 7 of the speed byte: it is set exactly for forward, at every
/// speed and in every step mode, and reading the byte back (whatever the step mode read
/// with) gives the direction that was sent.
pub proof fn law_db3_direction(speed: u8, dir: Direction, steps: u8, db2: u8)
    ensures
        ((encode_db3_spec(speed, dir, steps) & 0x80u8) != 0) == (dir == Direction::Forward),
        decode_db3_spec(db2, encode_db3_spec(speed, dir, steps)).1 == dir,
{
    let r: u8 = if dir == Direction::Forward { 0x80 } else { 0x00 };
    let b = encode_db3_spec(speed, dir, steps);
    if speed == 0 {
        assert(b == r);
        assert(((r == 0x80u8 || r == 0u8)) ==> (((r & 0x80u8) != 0) == (r == 0x80u8))) by (bit_vector);
    } else {
        lemma_db3_speed_bits(speed, steps);
        let v: u8 = if steps == 14 {
            min_int(speed as int * 14 / 126 + 1, 15) as u8
        } else if steps == 28 {
            encode28_spec(speed)
        } else {
            min_int(speed as int + 1, 127) as u8
        };
        assert(b == r | v);
        assert(((r == 0x80u8 || r == 0u8) && v <= 0x7Fu8) ==> ((((r | v) & 0x80u8) != 0) == (r == 0x80u8))) by (bit_vector);
    }
}

/// Speed 0 is sent as a plain stop in every step mode: no speed bits, only the direction;
/// any other speed sends a non-zero step code, in 14-step mode the speed scaled to 14 steps
/// plus one (at most 15).
pub proof fn law_db3_stop_and_14_steps(speed: u8, dir: Direction, steps: u8)
    ensures
        speed == 0 ==> (encode_db3_spec(speed, dir, steps) & 0x7Fu8) == 0,
        speed > 0 ==> (encode_db3_spec(speed, dir, steps) & 0x7Fu8) != 0,
        speed > 0 && steps == 14 ==> (encode_db3_spec(speed, dir, steps) & 0x7Fu8) as int == (if speed as int * 14 / 126 + 1 < 15 { speed as int * 14 / 126 + 1 } else { 15 }),
{
    let r: u8 = if dir == Direction::Forward { 0x80 } else { 0x00 };
    let b = encode_db3_spec(speed, dir, steps);
    if speed == 0 {
        assert((r == 0x80u8 || r == 0u8) ==> (r & 0x7Fu8) == 0) by (bit_vector);
    } else {
        lemma_db3_speed_bits(speed, steps);
        let v: u8 = if steps == 14 {
            min_int(speed as int * 14 / 126 + 1, 15) as u8
        } else if steps == 28 {
            encode28_spec(speed)
        } else {
            min_int(speed as int + 1, 127) as u8
        };
        if steps == 28 {
            let q = (speed as int * 28 / 126) as u8;
            let s: u8 = if q < 1 { 1 } else if q > 28 { 28 } else { q };
            let a = ((s + 3) % 2) as u8;
            let h = ((s + 3) / 2) as u8;
            assert(h >= 2);
            assert((h >= 2 && h <= 15) ==> ((a << 4u8) | (h & 0x0Fu8)) != 0) by (bit_vector);
        }
        assert(v != 0);
        assert(((r == 0x80u8 || r == 0u8) && v <= 0x7Fu8) ==> (((r | v) & 0x7Fu8) == v)) by (bit_vector);
    }
}

/// In 28-step mode the speed byte carries the NMRA step code of the step the speed scales to
/// (`speed * 28 / 126`, at least 1 and at most 28): its low nibble doubled plus bit 4 reads
/// back as that step plus 3.
pub proof fn law_db3_28_step_code(speed: u8, dir: Direction)
    requires
        speed > 0,
    ensures
        ({
            let b = encode_db3_spec(speed, dir, 28);
            let q = speed as int * 28 / 126;
            let step = if q < 1 { 1 } else if q > 28 { 28 } else { q };
            (b & 0x0Fu8) as int * 2 + ((b >> 4u8) & 1u8) as int == step + 3
        }),
{
    let r: u8 = if dir == Direction::Forward { 0x80 } else { 0x00 };
    let q = (speed as int * 28 / 126) as u8;
    let s: u8 = if q < 1 { 1 } else if q > 28 { 28 } else { q };
    let a = ((s + 3) % 2) as u8;
    let h = ((s + 3) / 2) as u8;
    assert(a <= 1 && h <= 15);
    let b = encode_db3_spec(speed, dir, 28);
    assert(b == r | ((a << 4u8) | (h & 0x0Fu8)));
    assert(((r == 0x80u8 || r == 0u8) && a <= 1 && h <= 15) ==> ((((r | ((a << 4u8) | (h & 0x0Fu8))) & 0x0Fu8) == h)
        && ((((r | ((a << 4u8) | (h & 0x0Fu8))) >> 4u8) & 1u8) == a))) by (bit_vector);
    assert(h as int * 2 + a as int == s + 3);
}

/// Function states and the mask of functions present in the optional DB4..DB8 bytes of a
/// `LAN_X_LOCO_INFO` (`x` starts at the X-Header). F0 is DB4 bit 4, F1..F4 DB4 bits 0..3,
/// F5..F28 DB5..DB7, F29..F31 DB8 bits 0..2; missing bytes leave their functions absent.
pub open spec fn function_bits_spec(x: Seq<u8>) -> (u32, u32) {
    let s4: u32 = if x.len() > 5 {
        (if x[5] & 0x10 != 0 { 1u32 } else { 0u32 }) | (((x[5] & 0x0F) as u32) << 1)
    } else {
        0
    };
    let p4: u32 = if x.len() > 5 { 0x1F } else { 0 };
    let s5: u32 = if x.len() > 6 { (x[6] as u32) << 5 } else { 0 };
    let p5: u32 = if x.len() > 6 { 0xFFu32 << 5 } else { 0 };
    let s6: u32 = if x.len() > 7 { (x[7] as u32) << 13 } else { 0 };
    let p6: u32 = if x.len() > 7 { 0xFFu32 << 13 } else { 0 };
    let s7: u32 = if x.len() > 8 { (x[8] as u32) << 21 } else { 0 };
    let p7: u32 = if x.len() > 8 { 0xFFu32 << 21 } else { 0 };
    let s8: u32 = if x.len() > 9 { ((x[9] & 0x07) as u32) << 29 } else { 0 };
    let p8: u32 = if x.len() > 9 { 0x07u32 << 29 } else { 0 };
    (s4 | s5 | s6 | s7 | s8, p4 | p5 | p6 | p7 | p8)
}

pub fn decode_function_bits(x: &[u8]) -> (r: (u32, u32))
    ensures
        r == function_bits_spec(x@),
{
    let n = x.len();
    let s4: u32 = if n > 5 {
        (if x[5] & 0x10 != 0 {
            1u32
        } else {
            0u32
        }) | (((x[5] & 0x0F) as u32) << 1)
    } else {
        0
    };
    let p4: u32 = if n > 5 {
        0x1F
    } else {
        0
    };
    let s5: u32 = if n > 6 {
        (x[6] as u32) << 5
    } else {
        0
    };
    let p5: u32 = if n > 6 {
        0xFFu32 << 5
    } else {
        0
    };
    let s6: u32 = if n > 7 {
        (x[7] as u32) << 13
    } else {
        0
    };
    let p6: u32 = if n > 7 {
        0xFFu32 << 13
    } else {
        0
    };
    let s7: u32 = if n > 8 {
        (x[8] as u32) << 21
    } else {
        0
    };
    let p7: u32 = if n > 8 {
        0xFFu32 << 21
    } else {
        0
    };
    let s8: u32 = if n > 9 {
        ((x[9] & 0x07) as u32) << 29
    } else {
        0
    };
    let p8: u32 = if n > 9 {
        0x07u32 << 29
    } else {
        0
    };
    (s4 | s5 | s6 | s7 | s8, p4 | p5 | p6 | p7 | p8)
}

} // verus!

verus! {

pub open spec fn addr_wire(addr: u16, long: bool) -> Seq<u8> {
    loco_wire(LocoId { addr, long })
}


/// Bytes sent after connect: broadcast flags, a status request, then a loco-info
/// subscription for every tracked loco.
pub open spec fn connect_fold(slots: Seq<Slot>, out: Seq<u8>) -> Seq<u8>
    decreases slots.len(),
{
    if slots.len() == 0 {
        xbus_spec(frame_spec(out, 0x0050, le32(1)), seq![0x21u8, 0x24u8])
    } else {
        let s = slots.last();
        xbus_spec(
            connect_fold(slots.drop_last(), out),
            seq![0xE3u8, 0xF0u8, addr_hi(s.addr, s.long), addr_lo(s.addr)],
        )
    }
}

/// Releasing a throttle: an unsubscribe frame and an `AddressRemoved` per loco on it.
pub open spec fn release_fold(slots: Seq<Slot>, t: u8, out: Seq<u8>) -> (Seq<u8>, Seq<EventModel>)
    decreases slots.len(),
{
    if slots.len() == 0 {
        (out, Seq::empty())
    } else {
        let (o, ev) = release_fold(slots.drop_last(), t, out);
        let s = slots.last();
        if s.throttle == t {
            (
                xbus_spec(o, seq![0xE3u8, 0x44u8, addr_hi(s.addr, s.long), addr_lo(s.addr)]),
                ev.push(
                    EventModel::AddressRemoved {
                        throttle: throttle_ch(s.throttle),
                        addr: addr_wire(s.addr, s.long),
                        entry: Seq::empty(),
                    },
                ),
            )
        } else {
            (o, ev)
        }
    }
}

/// The locos that stay tracked after releasing throttle `t`.
pub open spec fn keep_others(slots: Seq<Slot>, t: u8) -> Seq<Slot>
    decreases slots.len(),
{
    if slots.len() == 0 {
        Seq::empty()
    } else if slots.last().throttle == t {
        keep_others(slots.drop_last(), t)
    } else {
        keep_others(slots.drop_last(), t).push(slots.last())
    }
}

/// Drive state of one loco after a speed/direction command, and whether it was addressed.
pub open spec fn drive_slot(s: Slot, t: u8, loco: Option<LocoId>, speed: Option<u8>, dir: Option<Direction>) -> Option<Slot> {
    if s.throttle != t || (loco is Some && s.addr != loco.unwrap().addr) {
        None
    } else {
        Some(
            Slot {
                speed: if speed is Some { speed.unwrap() } else { s.speed },
                dir: if dir is Some { dir.unwrap() } else { s.dir },
                ..s
            },
        )
    }
}

pub open spec fn drive_frame(s: Slot) -> Seq<u8> {
    seq![
        0xE4u8,
        steps_db0_spec(s.steps),
        addr_hi(s.addr, s.long),
        addr_lo(s.addr),
        encode_db3_spec(s.speed, s.dir, s.steps),
    ]
}

/// Speed or direction applied to the addressed locos, each followed by its drive frame.
pub open spec fn drive_fold(
    slots: Seq<Slot>,
    t: u8,
    loco: Option<LocoId>,
    speed: Option<u8>,
    dir: Option<Direction>,
    out: Seq<u8>,
) -> (Seq<Slot>, Seq<u8>)
    decreases slots.len(),
{
    if slots.len() == 0 {
        (Seq::empty(), out)
    } else {
        let (ss, o) = drive_fold(slots.drop_last(), t, loco, speed, dir, out);
        match drive_slot(slots.last(), t, loco, speed, dir) {
            Some(s2) => (ss.push(s2), xbus_spec(o, drive_frame(s2))),
            None => (ss.push(slots.last()), o),
        }
    }
}

/// Emergency stop of throttle `t`: each of its locos gets speed 0, a stop frame and a
/// drive frame with the emergency-stop step.
pub open spec fn estop_fold(slots: Seq<Slot>, t: u8, out: Seq<u8>) -> (Seq<Slot>, Seq<u8>)
    decreases slots.len(),
{
    if slots.len() == 0 {
        (Seq::empty(), out)
    } else {
        let (ss, o) = estop_fold(slots.drop_last(), t, out);
        let s = slots.last();
        if s.throttle == t {
            let hi = addr_hi(s.addr, s.long);
            let lo = addr_lo(s.addr);
            let d: u8 = if s.dir == Direction::Forward {
                0x81
            } else {
                0x01
            };
            (
                ss.push(Slot { speed: 0, ..s }),
                xbus_spec(
                    xbus_spec(o, seq![0x92u8, hi, lo]),
                    seq![0xE4u8, steps_db0_spec(s.steps), hi, lo, d],
                ),
            )
        } else {
            (ss.push(s), o)
        }
    }
}

/// Function `func` switched on or off for every loco on throttle `t`.
pub open spec fn function_fold(slots: Seq<Slot>, t: u8, func: u8, on: bool, out: Seq<u8>) -> (Seq<Slot>, Seq<u8>)
    decreases slots.len(),
{
    if slots.len() == 0 {
        (Seq::empty(), out)
    } else {
        let (ss, o) = function_fold(slots.drop_last(), t, func, on, out);
        let s = slots.last();
        if s.throttle == t {
            let tt: u8 = if on {
                0x40
            } else {
                0x00
            };
            let f2: u32 = if on {
                s.funcs | (1u32 << func)
            } else {
                s.funcs & !(1u32 << func)
            };
            (
                ss.push(Slot { funcs: f2, ..s }),
                xbus_spec(
                    o,
                    seq![0xE4u8, 0xF8u8, addr_hi(s.addr, s.long), addr_lo(s.addr), tt | (func & 0x3F)],
                ),
            )
        } else {
            (ss.push(s), o)
        }
    }
}

pub open spec fn has_slot(slots: Seq<Slot>, t: u8, addr: u16) -> bool {
    exists|i: int| 0 <= i < slots.len() && slots[i].throttle == t && slots[i].addr == addr
}

pub open spec fn any_on_throttle(slots: Seq<Slot>, t: u8) -> bool {
    exists|i: int| 0 <= i < slots.len() && slots[i].throttle == t
}

/// Tracking a loco on a throttle (once; ignored when sixteen are tracked), subscribing to
/// its info, and reporting it added.
pub open spec fn add_spec(slots: Seq<Slot>, throttle: u8, loco: LocoId, out: Seq<u8>) -> (Seq<Slot>, Seq<u8>, Seq<EventModel>) {
        let ss = if !has_slot(slots, throttle, loco.addr) && slots.len() < MAX_Z21_LOCOS {
            slots.push(
                Slot {
                    throttle,
                    addr: loco.addr,
                    long: loco.long,
                    steps: 128,
                    speed: 0,
                    dir: Direction::Forward,
                    funcs: 0,
                },
            )
        } else {
            slots
        };
        (
            ss,
            xbus_spec(out, seq![0xE3u8, 0xF0u8, addr_hi(loco.addr, loco.long), addr_lo(loco.addr)]),
            seq![
                EventModel::AddressAdded {
                    throttle: throttle_ch(throttle),
                    addr: loco_wire(loco),
                    entry: Seq::empty(),
                },
            ],
        )
}

/// Effect of one command: new slots, bytes out, and events emitted locally.
pub open spec fn encode_spec(slots: Seq<Slot>, cmd: ClientCommand, out: Seq<u8>) -> (Seq<Slot>, Seq<u8>, Seq<EventModel>) {
    match cmd {
        ClientCommand::AddLoco { throttle, loco, .. } => add_spec(slots, throttle, loco, out),
        ClientCommand::ReleaseThrottle { throttle } => {
            let (o, ev) = release_fold(slots, throttle, out);
            (keep_others(slots, throttle), o, ev)
        },
        ClientCommand::SetSpeed { throttle, speed } => {
            let (ss, o) = drive_fold(slots, throttle, None, Some(speed), None, out);
            (ss, o, Seq::empty())
        },
        ClientCommand::SetDirection { throttle, loco, dir } => {
            let (ss, o) = drive_fold(slots, throttle, loco, None, Some(dir), out);
            (ss, o, Seq::empty())
        },
        ClientCommand::EStop { throttle } => {
            let (ss, o) = estop_fold(slots, throttle, out);
            (ss, o, Seq::empty())
        },
        ClientCommand::SetFunction { throttle, func, on, .. } => {
            let (ss, o) = function_fold(slots, throttle, func, on, out);
            (ss, o, Seq::empty())
        },
        ClientCommand::TrackPower(on) => (
            slots,
            xbus_spec(out, seq![0x21u8, if on { 0x81u8 } else { 0x80u8 }]),
            Seq::empty(),
        ),
        _ => (slots, out, Seq::empty()),
    }
}

/// Commands the adapter can encode without a panic: throttle characters stay printable
/// digits-and-up, and a function number is a bit of the function mask.
pub open spec fn encode_ok(slots: Seq<Slot>, cmd: ClientCommand) -> bool {
    match cmd {
        ClientCommand::AddLoco { throttle, .. } => throttle < 208,
        ClientCommand::SetFunction { throttle, func, .. } => any_on_throttle(slots, throttle) ==> func < 32,
        _ => true,
    }
}

impl Z21Adapter {
    /// Every tracked loco's throttle has a wire character; at most sixteen locos.
    pub open spec fn wf(&self) -> bool {
        &&& self.locos@.len() <= MAX_Z21_LOCOS
        &&& forall|i: int| 0 <= i < self.locos@.len() ==> #[trigger] self.locos@[i].throttle < 208
    }

    pub fn new() -> (a: Z21Adapter)
        ensures
            a.locos@.len() == 0,
            a.wf(),
    {
        Z21Adapter { locos: Vec::new() }
    }

    pub fn on_connect(&mut self, out: &mut WireBuf, events: &mut Vec<ServerEvent>)
        ensures
            final(out)@ == connect_fold(old(self).locos@, old(out)@),
            final(self).locos == old(self).locos,
            final(events)@ == old(events)@,
    {
        let one: Vec<u8> = vec![1u8, 0, 0, 0];
        assert(one@ =~= le32(1));
        put_frame(out, 0x0050, one.as_slice());
        let sub: Vec<u8> = vec![0x21u8, 0x24];
        put_xbus(out, sub.as_slice());
        assert(sub@ =~= seq![0x21u8, 0x24u8]);
        assert(self.locos@.take(0) =~= Seq::<Slot>::empty());
        let mut i: usize = 0;
        while i < self.locos.len()
            invariant
                i <= self.locos@.len(),
                *self == *old(self),
                out@ == connect_fold(self.locos@.take(i as int), old(out)@),
            decreases self.locos@.len() - i,
        {
            let s = self.locos[i];
            let a = addr_bytes(s.addr, s.long);
            let frame: Vec<u8> = vec![0xE3u8, 0xF0, a[0], a[1]];
            assert(self.locos@.take(i + 1).drop_last() =~= self.locos@.take(i as int));
            put_xbus(out, frame.as_slice());
            assert(frame@ =~= seq![0xE3u8, 0xF0u8, addr_hi(s.addr, s.long), addr_lo(s.addr)]);
            i = i + 1;
        }
        assert(self.locos@.take(i as int) =~= self.locos@);
    }

    /// Keep-alive: the serial-number request frame.
    pub fn on_tick(&mut self, out: &mut WireBuf) -> (r: bool)
        ensures
            r,
            final(out)@ == frame_spec(old(out)@, 0x0085, Seq::empty()),
            final(self).locos == old(self).locos,
    {
        let empty: Vec<u8> = Vec::new();
        put_frame(out, 0x0085, empty.as_slice());
        true
    }
}

} // verus!

verus! {

fn slot_frame4(b0: u8, b1: u8, s: Slot) -> (r: Vec<u8>)
    ensures
        r@ == seq![b0, b1, addr_hi(s.addr, s.long), addr_lo(s.addr)],
{
    let a = addr_bytes(s.addr, s.long);
    let r: Vec<u8> = vec![b0, b1, a[0], a[1]];
    assert(r@ =~= seq![b0, b1, addr_hi(s.addr, s.long), addr_lo(s.addr)]);
    r
}

impl Z21Adapter {
    fn add_loco(&mut self, throttle: u8, loco: LocoId, out: &mut WireBuf, events: &mut Vec<ServerEvent>)
        requires
            throttle < 208,
        ensures
            ({
                let (ss, o, ev) = add_spec(old(self).locos@, throttle, loco, old(out)@);
                &&& final(self).locos@ == ss
                &&& final(out)@ == o
                &&& events_view(final(events)@) == events_view(old(events)@) + ev
            }),
    {
        let mut found = false;
        let mut i: usize = 0;
        while i < self.locos.len()
            invariant
                i <= self.locos@.len(),
                *self == *old(self),
                found == exists|j: int| 0 <= j < i && self.locos@[j].throttle == throttle && self.locos@[j].addr == loco.addr,
            decreases self.locos@.len() - i,
        {
            if self.locos[i].throttle == throttle && self.locos[i].addr == loco.addr {
                found = true;
            }
            i = i + 1;
        }
        if !found && self.locos.len() < MAX_Z21_LOCOS {
            self.locos.push(
                Slot {
                    throttle,
                    addr: loco.addr,
                    long: loco.long,
                    steps: 128,
                    speed: 0,
                    dir: Direction::Forward,
                    funcs: 0,
                },
            );
        }
        let a = addr_bytes(loco.addr, loco.long);
        let frame: Vec<u8> = vec![0xE3u8, 0xF0, a[0], a[1]];
        assert(frame@ =~= seq![0xE3u8, 0xF0u8, addr_hi(loco.addr, loco.long), addr_lo(loco.addr)]);
        put_xbus(out, frame.as_slice());
        let ev = ServerEvent::AddressAdded {
            throttle: throttle_char(throttle as usize),
            addr: loco.to_wire(),
            entry: Vec::new(),
        };
        let ghost before = events@;
        events.push(ev);
        assert(events_view(events@) =~= events_view(before).push(ev@));
        assert(ev@ == (EventModel::AddressAdded { throttle: throttle_ch(throttle), addr: loco_wire(loco), entry: Seq::empty() }));
        assert(events_view(events@) =~= events_view(before) + seq![ev@]);
    }

    fn release(&mut self, throttle: u8, out: &mut WireBuf, events: &mut Vec<ServerEvent>)
        requires
            old(self).wf(),
        ensures
            final(self).wf(),
            ({
                let (o, ev) = release_fold(old(self).locos@, throttle, old(out)@);
                &&& final(self).locos@ == keep_others(old(self).locos@, throttle)
                &&& final(out)@ == o
                &&& events_view(final(events)@) == events_view(old(events)@) + ev
            }),
    {
        let ghost ev0 = events_view(events@);
        let mut kept: Vec<Slot> = Vec::new();
        let mut i: usize = 0;
        while i < self.locos.len()
            invariant
                i <= self.locos@.len(),
                *self == *old(self),
                self.wf(),
                kept@ == keep_others(self.locos@.take(i as int), throttle),
                kept@.len() <= i,
                forall|j: int| 0 <= j < kept@.len() ==> #[trigger] kept@[j].throttle < 208,
                ({
                    let (o, ev) = release_fold(self.locos@.take(i as int), throttle, old(out)@);
                    out@ == o && events_view(events@) == ev0 + ev
                }),
            decreases self.locos@.len() - i,
        {
            let s = self.locos[i];
            assert(self.locos@.take(i + 1).drop_last() =~= self.locos@.take(i as int));
            assert(self.locos@.take(i + 1).last() == s);
            if s.throttle == throttle {
                let frame = slot_frame4(0xE3, 0x44, s);
                put_xbus(out, frame.as_slice());
                let ev = ServerEvent::AddressRemoved {
                    throttle: throttle_char(s.throttle as usize),
                    addr: LocoId { addr: s.addr, long: s.long }.to_wire(),
                    entry: Vec::new(),
                };
                let ghost before = events@;
                events.push(ev);
                assert(events_view(events@) =~= events_view(before).push(ev@));
            } else {
                kept.push(s);
            }
            i = i + 1;
        }
        assert(self.locos@.take(i as int) =~= self.locos@);
        self.locos = kept;
    }

    fn drive(
        &mut self,
        throttle: u8,
        loco: Option<LocoId>,
        speed: Option<u8>,
        dir: Option<Direction>,
        out: &mut WireBuf,
    )
        requires
            old(self).wf(),
        ensures
            final(self).wf(),
            ({
                let (ss, o) = drive_fold(old(self).locos@, throttle, loco, speed, dir, old(out)@);
                final(self).locos@ == ss && final(out)@ == o
            }),
    {
        let ghost s0 = self.locos@;
        let mut i: usize = 0;
        while i < self.locos.len()
            invariant
                i <= self.locos@.len(),
                self.locos@.len() == s0.len(),
                self.wf(),
                forall|j: int| i <= j < s0.len() ==> self.locos@[j] == s0[j],
                forall|j: int| 0 <= j < s0.len() ==> self.locos@[j].throttle == s0[j].throttle,
                ({
                    let (ss, o) = drive_fold(s0.take(i as int), throttle, loco, speed, dir, old(out)@);
                    self.locos@.take(i as int) == ss && out@ == o
                }),
            decreases self.locos@.len() - i,
        {
            let s = self.locos[i];
            assert(s0.take(i + 1).drop_last() =~= s0.take(i as int));
            assert(s0.take(i + 1).last() == s);
            let addressed = s.throttle == throttle && match loco {
                Some(target) => s.addr == target.addr,
                None => true,
            };
            if addressed {
                let mut s2 = s;
                match speed {
                    Some(v) => {
                        s2.speed = v;
                    },
                    None => {},
                }
                match dir {
                    Some(d) => {
                        s2.dir = d;
                    },
                    None => {},
                }
                self.locos.set(i, s2);
                let a = addr_bytes(s2.addr, s2.long);
                let frame: Vec<u8> = vec![
                    0xE4u8,
                    steps_db0(s2.steps),
                    a[0],
                    a[1],
                    encode_db3(s2.speed, s2.dir, s2.steps),
                ];
                assert(frame@ =~= drive_frame(s2));
                put_xbus(out, frame.as_slice());
            }
            assert(self.locos@.take(i + 1) =~= drive_fold(s0.take(i + 1), throttle, loco, speed, dir, old(out)@).0);
            i = i + 1;
        }
        assert(s0.take(i as int) =~= s0);
        assert(self.locos@.take(i as int) =~= self.locos@);
    }

    fn estop(&mut self, throttle: u8, out: &mut WireBuf)
        requires
            old(self).wf(),
        ensures
            final(self).wf(),
            ({
                let (ss, o) = estop_fold(old(self).locos@, throttle, old(out)@);
                final(self).locos@ == ss && final(out)@ == o
            }),
    {
        let ghost s0 = self.locos@;
        let mut i: usize = 0;
        while i < self.locos.len()
            invariant
                i <= self.locos@.len(),
                self.locos@.len() == s0.len(),
                self.wf(),
                forall|j: int| i <= j < s0.len() ==> self.locos@[j] == s0[j],
                forall|j: int| 0 <= j < s0.len() ==> self.locos@[j].throttle == s0[j].throttle,
                ({
                    let (ss, o) = estop_fold(s0.take(i as int), throttle, old(out)@);
                    self.locos@.take(i as int) == ss && out@ == o
                }),
            decreases self.locos@.len() - i,
        {
            let s = self.locos[i];
            assert(s0.take(i + 1).drop_last() =~= s0.take(i as int));
            assert(s0.take(i + 1).last() == s);
            if s.throttle == throttle {
                let mut s2 = s;
                s2.speed = 0;
                self.locos.set(i, s2);
                let stop = slot_frame4(0x92, 0, s);
                let a = addr_bytes(s.addr, s.long);
                let f1: Vec<u8> = vec![0x92u8, a[0], a[1]];
                assert(f1@ =~= seq![0x92u8, addr_hi(s.addr, s.long), addr_lo(s.addr)]);
                put_xbus(out, f1.as_slice());
                let direction: u8 = if s.dir == Direction::Forward {
                    0x80
                } else {
                    0x00
                };
                let f2: Vec<u8> = vec![0xE4u8, steps_db0(s.steps), a[0], a[1], direction | 0x01];
                assert((direction == 0x80u8 ==> direction | 0x01u8 == 0x81u8) && (direction == 0u8 ==> direction | 0x01u8 == 0x01u8)) by (bit_vector);
                assert(f2@ =~= seq![0xE4u8, steps_db0_spec(s.steps), addr_hi(s.addr, s.long), addr_lo(s.addr), if s.dir == Direction::Forward { 0x81u8 } else { 0x01u8 }]);
                put_xbus(out, f2.as_slice());
            }
            assert(self.locos@.take(i + 1) =~= estop_fold(s0.take(i + 1), throttle, old(out)@).0);
            i = i + 1;
        }
        assert(s0.take(i as int) =~= s0);
        assert(self.locos@.take(i as int) =~= self.locos@);
    }

    fn set_function(&mut self, throttle: u8, func: u8, on: bool, out: &mut WireBuf)
        requires
            old(self).wf(),
            any_on_throttle(old(self).locos@, throttle) ==> func < 32,
        ensures
            final(self).wf(),
            ({
                let (ss, o) = function_fold(old(self).locos@, throttle, func, on, old(out)@);
                final(self).locos@ == ss && final(out)@ == o
            }),
    {
        let ghost s0 = self.locos@;
        let mut i: usize = 0;
        while i < self.locos.len()
            invariant
                i <= self.locos@.len(),
                self.locos@.len() == s0.len(),
                self.wf(),
                any_on_throttle(s0, throttle) ==> func < 32,
                forall|j: int| i <= j < s0.len() ==> self.locos@[j] == s0[j],
                forall|j: int| 0 <= j < s0.len() ==> self.locos@[j].throttle == s0[j].throttle,
                ({
                    let (ss, o) = function_fold(s0.take(i as int), throttle, func, on, old(out)@);
                    self.locos@.take(i as int) == ss && out@ == o
                }),
            decreases self.locos@.len() - i,
        {
            let s = self.locos[i];
            assert(s0.take(i + 1).drop_last() =~= s0.take(i as int));
            assert(s0.take(i + 1).last() == s);
            if s.throttle == throttle {
                assert(s0[i as int].throttle == throttle);
                let a = addr_bytes(s.addr, s.long);
                let tt: u8 = if on {
                    0x40
                } else {
                    0x00
                };
                let frame: Vec<u8> = vec![0xE4u8, 0xF8, a[0], a[1], tt | (func & 0x3F)];
                assert(frame@ =~= seq![0xE4u8, 0xF8u8, addr_hi(s.addr, s.long), addr_lo(s.addr), tt | (func & 0x3F)]);
                put_xbus(out, frame.as_slice());
                let mut s2 = s;
                if on {
                    s2.funcs = s.funcs | (1u32 << func);
                } else {
                    s2.funcs = s.funcs & !(1u32 << func);
                }
                self.locos.set(i, s2);
            }
            assert(self.locos@.take(i + 1) =~= function_fold(s0.take(i + 1), throttle, func, on, old(out)@).0);
            i = i + 1;
        }
        assert(s0.take(i as int) =~= s0);
        assert(self.locos@.take(i as int) =~= self.locos@);
    }

    /// Encodes one command; `AddLoco` and `ReleaseThrottle` also report the address
    /// change locally, since the station does not.
    pub fn encode(&mut self, cmd: &ClientCommand, out: &mut WireBuf, events: &mut Vec<ServerEvent>)
        requires
            old(self).wf(),
            encode_ok(old(self).locos@, *cmd),
        ensures
            final(self).wf(),
            ({
                let (ss, o, ev) = encode_spec(old(self).locos@, *cmd, old(out)@);
                &&& final(self).locos@ == ss
                &&& final(out)@ == o
                &&& events_view(final(events)@) == events_view(old(events)@) + ev
            }),
    {
        let ghost ev0 = events_view(events@);
        match cmd {
            ClientCommand::AddLoco { throttle, loco, .. } => {
                self.add_loco(*throttle, *loco, out, events);
            },
            ClientCommand::ReleaseThrottle { throttle } => {
                self.release(*throttle, out, events);
            },
            ClientCommand::SetSpeed { throttle, speed } => {
                self.drive(*throttle, None, Some(*speed), None, out);
                assert(events_view(events@) =~= ev0 + Seq::<EventModel>::empty());
            },
            ClientCommand::SetDirection { throttle, loco, dir } => {
                self.drive(*throttle, *loco, None, Some(*dir), out);
                assert(events_view(events@) =~= ev0 + Seq::<EventModel>::empty());
            },
            ClientCommand::EStop { throttle } => {
                self.estop(*throttle, out);
                assert(events_view(events@) =~= ev0 + Seq::<EventModel>::empty());
            },
            ClientCommand::SetFunction { throttle, func, on, .. } => {
                self.set_function(*throttle, *func, *on, out);
                assert(events_view(events@) =~= ev0 + Seq::<EventModel>::empty());
            },
            ClientCommand::TrackPower(on) => {
                let frame: Vec<u8> = vec![0x21u8, if *on {
                    0x81u8
                } else {
                    0x80u8
                }];
                assert(frame@ =~= seq![0x21u8, if *on { 0x81u8 } else { 0x80u8 }]);
                put_xbus(out, frame.as_slice());
                assert(events_view(events@) =~= ev0 + Seq::<EventModel>::empty());
            },
            _ => {
                assert(events_view(events@) =~= ev0 + Seq::<EventModel>::empty());
            },
        }
    }
}

} // verus!

verus! {

/// Function changes for functions `0..n`: each function present in the reply whose state
/// differs from `funcs` is reported and flipped.
pub open spec fn fn_fold(funcs: u32, states: u32, present: u32, t: char, n: nat) -> (u32, Seq<EventModel>)
    decreases n,
{
    if n == 0 {
        (funcs, Seq::empty())
    } else {
        let (f, ev) = fn_fold(funcs, states, present, t, (n - 1) as nat);
        let k = (n - 1) as u8;
        let mask = 1u32 << k;
        if present & mask != 0 && (states & mask != 0) != (f & mask != 0) {
            let on = states & mask != 0;
            (
                if on {
                    f | mask
                } else {
                    f & !mask
                },
                ev.push(EventModel::FunctionState { throttle: t, func: k, on }),
            )
        } else {
            (f, ev)
        }
    }
}

pub open spec fn info_addr(x: Seq<u8>) -> u16 {
    (((x[1] as u16) & 0x3F) << 8) | (x[2] as u16)
}

pub open spec fn info_steps(db2: u8) -> u8 {
    if db2 & 0x07 == 0 {
        14
    } else if db2 & 0x07 == 2 {
        28
    } else {
        128
    }
}

/// A loco-info reply applied to one tracked loco: step mode, speed and direction are
/// stored and reported, then the changed functions.
pub open spec fn info_slot(s: Slot, x: Seq<u8>) -> (Slot, Seq<EventModel>) {
    let (speed, dir) = decode_db3_spec(x[3], x[4]);
    let t = throttle_ch(s.throttle);
    let (states, present) = function_bits_spec(x);
    let (f2, fev) = fn_fold(s.funcs, states, present, t, 32);
    (
        Slot { steps: info_steps(x[3]), speed, dir, funcs: f2, ..s },
        seq![EventModel::Speed { throttle: t, speed }, EventModel::DirectionLead { throttle: t, dir }] + fev,
    )
}

pub open spec fn info_fold(slots: Seq<Slot>, x: Seq<u8>) -> (Seq<Slot>, Seq<EventModel>)
    decreases slots.len(),
{
    if slots.len() == 0 {
        (Seq::empty(), Seq::empty())
    } else {
        let (ss, ev) = info_fold(slots.drop_last(), x);
        let s = slots.last();
        if s.addr == info_addr(x) {
            let (s2, e2) = info_slot(s, x);
            (ss.push(s2), ev + e2)
        } else {
            (ss.push(s), ev)
        }
    }
}

pub open spec fn estop_text() -> Seq<u8> {
    seq![69u8, 45, 83, 84, 79, 80]
}

/// Effect of one received LAN frame. Only X-BUS frames matter: loco info (without its
/// checksum byte), track power on/off, central status (track voltage off bit), and the
/// emergency-stop broadcast.
pub open spec fn frame_effect(slots: Seq<Slot>, f: Seq<u8>) -> (Seq<Slot>, Seq<EventModel>) {
    if f.len() < 5 || f[2] as int + f[3] as int * 256 != HDR_XBUS {
        (slots, Seq::empty())
    } else if f[4] == 0xEF {
        let x = f.subrange(4, f.len() - 1);
        if x.len() < 6 {
            (slots, Seq::empty())
        } else {
            info_fold(slots, x)
        }
    } else if f[4] == 0x61 && f.len() >= 7 {
        if f[5] == 0 {
            (slots, seq![EventModel::TrackPower(TrackPower::Off)])
        } else if f[5] == 1 {
            (slots, seq![EventModel::TrackPower(TrackPower::On)])
        } else {
            (slots, Seq::empty())
        }
    } else if f[4] == 0x62 && f.len() >= 8 && f[5] == 0x22 {
        (slots, seq![EventModel::TrackPower(if f[6] & 0x02 != 0 { TrackPower::Off } else { TrackPower::On })])
    } else if f[4] == 0x81 {
        (slots, seq![EventModel::Message(estop_text())])
    } else {
        (slots, Seq::empty())
    }
}

/// A datagram read frame by frame while at least four bytes remain and the length field
/// is between 4 and what remains.
pub open spec fn decode_frames(slots: Seq<Slot>, b: Seq<u8>) -> (Seq<Slot>, Seq<EventModel>)
    decreases b.len(),
{
    if b.len() < 4 {
        (slots, Seq::empty())
    } else {
        let len = b[0] as int + b[1] as int * 256;
        if len < 4 || len > b.len() {
            (slots, Seq::empty())
        } else {
            let (s1, e1) = frame_effect(slots, b.take(len));
            let (s2, e2) = decode_frames(s1, b.skip(len));
            (s2, e1 + e2)
        }
    }
}

fn function_changes(funcs: u32, states: u32, present: u32, t: char, events: &mut Vec<ServerEvent>) -> (r: u32)
    ensures
        ({
            let (f, ev) = fn_fold(funcs, states, present, t, 32);
            r == f && events_view(final(events)@) == events_view(old(events)@) + ev
        }),
{
    let ghost ev0 = events_view(events@);
    let mut f = funcs;
    let mut k: u8 = 0;
    while k < 32
        invariant
            k <= 32,
            ({
                let (ff, ev) = fn_fold(funcs, states, present, t, k as nat);
                f == ff && events_view(events@) == ev0 + ev
            }),
        decreases 32 - k,
    {
        let mask: u32 = 1u32 << k;
        if present & mask != 0 {
            let on = states & mask != 0;
            if on != ((f & mask) != 0) {
                let ghost before = events@;
                events.push(ServerEvent::FunctionState { throttle: t, func: k, on });
                assert(events_view(events@) =~= events_view(before).push(
                    EventModel::FunctionState { throttle: t, func: k, on },
                ));
                if on {
                    f = f | mask;
                } else {
                    f = f & !mask;
                }
            }
        }
        k = k + 1;
    }
    f
}

impl Z21Adapter {
    fn on_loco_info(&mut self, x: &[u8], events: &mut Vec<ServerEvent>)
        requires
            old(self).wf(),
            x@.len() >= 6,
        ensures
            final(self).wf(),
            ({
                let (ss, ev) = info_fold(old(self).locos@, x@);
                final(self).locos@ == ss && events_view(final(events)@) == events_view(old(events)@) + ev
            }),
    {
        let ghost ev0 = events_view(events@);
        let ghost s0 = self.locos@;
        let addr: u16 = (((x[1] as u16) & 0x3F) << 8) | (x[2] as u16);
        let db2 = x[3];
        let steps: u8 = if db2 & 0x07 == 0 {
            14
        } else if db2 & 0x07 == 2 {
            28
        } else {
            128
        };
        let (speed, dir) = decode_db3(x[3], x[4]);
        let (states, present) = decode_function_bits(x);
        let mut i: usize = 0;
        while i < self.locos.len()
            invariant
                i <= self.locos@.len(),
                self.locos@.len() == s0.len(),
                self.wf(),
                addr == info_addr(x@),
                steps == info_steps(x@[3]),
                (speed, dir) == decode_db3_spec(x@[3], x@[4]),
                (states, present) == function_bits_spec(x@),
                forall|j: int| i <= j < s0.len() ==> self.locos@[j] == s0[j],
                forall|j: int| 0 <= j < s0.len() ==> self.locos@[j].throttle == s0[j].throttle,
                ({
                    let (ss, ev) = info_fold(s0.take(i as int), x@);
                    self.locos@.take(i as int) == ss && events_view(events@) == ev0 + ev
                }),
            decreases self.locos@.len() - i,
        {
            let s = self.locos[i];
            assert(s0.take(i + 1).drop_last() =~= s0.take(i as int));
            assert(s0.take(i + 1).last() == s);
            if s.addr == addr {
                assert(s0[i as int].throttle < 208);
                let t = throttle_char(s.throttle as usize);
                let ghost before = events_view(events@);
                events.push(ServerEvent::Speed { throttle: t, speed });
                events.push(ServerEvent::DirectionLead { throttle: t, dir });
                let ghost mid = events_view(events@);
                let f2 = function_changes(s.funcs, states, present, t, events);
                let mut s2 = s;
                s2.steps = steps;
                s2.speed = speed;
                s2.dir = dir;
                s2.funcs = f2;
                self.locos.set(i, s2);
                proof {
                    assert(t == throttle_ch(s.throttle));
                    let (ff, fev) = fn_fold(s.funcs, states, present, t, 32);
                    assert(mid =~= before + seq![EventModel::Speed { throttle: t, speed }, EventModel::DirectionLead { throttle: t, dir }]);
                    assert(events_view(events@) =~= before + (seq![EventModel::Speed { throttle: t, speed }, EventModel::DirectionLead { throttle: t, dir }] + fev));
                }
            }
            assert(self.locos@.take(i + 1) =~= info_fold(s0.take(i + 1), x@).0);
            i = i + 1;
        }
        assert(s0.take(i as int) =~= s0);
        assert(self.locos@.take(i as int) =~= self.locos@);
    }

    fn on_frame(&mut self, f: &[u8], events: &mut Vec<ServerEvent>)
        requires
            old(self).wf(),
        ensures
            final(self).wf(),
            ({
                let (ss, ev) = frame_effect(old(self).locos@, f@);
                final(self).locos@ == ss && events_view(final(events)@) == events_view(old(events)@) + ev
            }),
    {
        let ghost ev0 = events_view(events@);
        let n = f.len();
        if n < 5 || (f[2] as u16) + (f[3] as u16) * 256 != HDR_XBUS {
            assert(events_view(events@) =~= ev0 + Seq::<EventModel>::empty());
            return;
        }
        let ghost before = events@;
        if f[4] == 0xEF {
            let x = &f[4..n - 1];
            if x.len() < 6 {
                assert(events_view(events@) =~= ev0 + Seq::<EventModel>::empty());
                return;
            }
            self.on_loco_info(x, events);
        } else if f[4] == 0x61 && n >= 7 {
            if f[5] == 0 {
                events.push(ServerEvent::TrackPower(TrackPower::Off));
                assert(events_view(events@) =~= ev0 + seq![EventModel::TrackPower(TrackPower::Off)]);
            } else if f[5] == 1 {
                events.push(ServerEvent::TrackPower(TrackPower::On));
                assert(events_view(events@) =~= ev0 + seq![EventModel::TrackPower(TrackPower::On)]);
            } else {
                assert(events_view(events@) =~= ev0 + Seq::<EventModel>::empty());
            }
        } else if f[4] == 0x62 && n >= 8 && f[5] == 0x22 {
            let power = if f[6] & 0x02 != 0 {
                TrackPower::Off
            } else {
                TrackPower::On
            };
            events.push(ServerEvent::TrackPower(power));
            assert(events_view(events@) =~= ev0 + seq![EventModel::TrackPower(power)]);
        } else if f[4] == 0x81 {
            let msg: Vec<u8> = vec![69u8, 45, 83, 84, 79, 80];
            assert(msg@ =~= estop_text());
            events.push(ServerEvent::Message(msg));
            assert(events_view(events@) =~= ev0 + seq![EventModel::Message(estop_text())]);
        } else {
            assert(events_view(events@) =~= ev0 + Seq::<EventModel>::empty());
        }
    }

    /// Feeds a received datagram (one or more frames); decoded events are appended.
    pub fn decode(&mut self, data: &[u8], events: &mut Vec<ServerEvent>)
        requires
            old(self).wf(),
        ensures
            final(self).wf(),
            ({
                let (ss, ev) = decode_frames(old(self).locos@, data@);
                final(self).locos@ == ss && events_view(final(events)@) == events_view(old(events)@) + ev
            }),
    {
        let ghost ev0 = events_view(events@);
        let ghost s0 = self.locos@;
        let ghost mut acc: Seq<EventModel> = Seq::empty();
        let mut pos: usize = 0;
        let n = data.len();
        assert(data@.skip(0) =~= data@);
        assert(ev0 + acc =~= ev0);
        while next_frame_len(data, pos) > 0
            invariant
                pos <= n,
                n == data@.len(),
                self.wf(),
                events_view(events@) == ev0 + acc,
                ({
                    let (sr, er) = decode_frames(self.locos@, data@.skip(pos as int));
                    decode_frames(s0, data@) == (sr, acc + er)
                }),
            decreases n - pos,
        {
            let len = next_frame_len(data, pos);
            let ghost rest = data@.skip(pos as int);
            let frame = &data[pos..pos + len];
            assert(frame@ =~= rest.take(len as int));
            assert(data@.skip((pos + len) as int) =~= rest.skip(len as int));
            let ghost sb = self.locos@;
            self.on_frame(frame, events);
            proof {
                let (s1, e1) = frame_effect(sb, frame@);
                let (s2, e2) = decode_frames(s1, rest.skip(len as int));
                assert(acc + (e1 + e2) =~= (acc + e1) + e2);
                acc = acc + e1;
                assert(events_view(events@) =~= ev0 + acc);
            }
            pos = pos + len;
        }
        assert(acc + Seq::<EventModel>::empty() =~= acc);
    }
}

/// Length of the frame at `pos` when a whole frame (of at least four bytes) starts there, else 0.
fn next_frame_len(data: &[u8], pos: usize) -> (r: usize)
    requires
        pos <= data@.len(),
    ensures
        ({
            let b = data@.skip(pos as int);
            if b.len() >= 4 && 4 <= b[0] as int + b[1] as int * 256 <= b.len() {
                r == b[0] as int + b[1] as int * 256
            } else {
                r == 0
            }
        }),
{
    let n = data.len();
    if n - pos < 4 {
        return 0;
    }
    let len: usize = (data[pos] as usize) + (data[pos + 1] as usize) * 256;
    if len < 4 || len > n - pos {
        0
    } else {
        len
    }
}

} // verus!

verus! {

/// Number of tracked locos on throttle `t`.
pub open spec fn locos_on(slots: Seq<Slot>, t: u8) -> nat
    decreases slots.len(),
{
    if slots.len() == 0 {
        0
    } else {
        locos_on(slots.drop_last(), t) + if slots.last().throttle == t { 1nat } else { 0nat }
    }
}

proof fn lemma_xbus_len(o: Seq<u8>, x: Seq<u8>)
    requires
        o.len() + x.len() + 5 <= crate::adapter::WIRE_BUF_CAP,
    ensures
        xbus_spec(o, x).len() == o.len() + x.len() + 5,
{
}

/// An emergency stop reaches every loco on the throttle: when the burst fits the buffer
/// (sixteen locos fit an empty one), every such loco gets its two frames (eighteen bytes)
/// and a cached speed of 0, and the other locos are left as they were.
pub proof fn law_estop_burst_fits(slots: Seq<Slot>, t: u8, out: Seq<u8>)
    requires
        out.len() + 18 * locos_on(slots, t) <= crate::adapter::WIRE_BUF_CAP,
    ensures
        estop_fold(slots, t, out).1.len() == out.len() + 18 * locos_on(slots, t),
        estop_fold(slots, t, out).0.len() == slots.len(),
        forall|i: int|
            0 <= i < slots.len() ==> #[trigger] estop_fold(slots, t, out).0[i] == (if slots[i].throttle == t {
                Slot { speed: 0, ..slots[i] }
            } else {
                slots[i]
            }),
    decreases slots.len(),
{
    if slots.len() > 0 {
        let init = slots.drop_last();
        law_estop_burst_fits(init, t, out);
        let (ss, o) = estop_fold(init, t, out);
        let s = slots.last();
        if s.throttle == t {
            let hi = addr_hi(s.addr, s.long);
            let lo = addr_lo(s.addr);
            lemma_xbus_len(o, seq![0x92u8, hi, lo]);
            let d: u8 = if s.dir == Direction::Forward { 0x81 } else { 0x01 };
            lemma_xbus_len(xbus_spec(o, seq![0x92u8, hi, lo]), seq![0xE4u8, steps_db0_spec(s.steps), hi, lo, d]);
        }
        let r = estop_fold(slots, t, out).0;
        assert forall|i: int| 0 <= i < slots.len() implies #[trigger] r[i] == (if slots[i].throttle == t {
            Slot { speed: 0, ..slots[i] }
        } else {
            slots[i]
        }) by {
            if i < init.len() {
                assert(slots[i] == init[i]);
                assert(r[i] == ss[i]);
            }
        }
    }
}

} // verus!
