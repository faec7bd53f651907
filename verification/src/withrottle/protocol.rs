//! WiThrottle command lines (without CR/LF), each at most [`CMD_CAP`] bytes.
//!
//! A line is built piece by piece; a piece that would not fit is left out whole.

use crate::model::{property_sep, Direction};
use crate::text::{append_bytes, char_utf8, dec_digits, push_decimal};
use vstd::prelude::*;
use vstd::string::StringSliceAdditionalSpecFns;
use vstd::utf8::encode_scalar;

verus! {

/// Capacity of a command line in bytes.
pub const CMD_CAP: usize = 64;

/// A command line (UTF-8).
pub type Cmd = Vec<u8>;

/// `s` with `p` appended when the result fits in [`CMD_CAP`] bytes.
pub open spec fn cp(s: Seq<u8>, p: Seq<u8>) -> Seq<u8> {
    if s.len() + p.len() <= CMD_CAP {
        s + p
    } else {
        s
    }
}

pub open spec fn ch(c: char) -> Seq<u8> {
    encode_scalar(c as u32)
}

fn put(s: &mut Cmd, p: &[u8])
    ensures
        final(s)@ == cp(old(s)@, p@),
{
    if s.len() <= CMD_CAP && p.len() <= CMD_CAP - s.len() {
        append_bytes(s, p);
    }
}

fn put_char(s: &mut Cmd, c: char)
    ensures
        final(s)@ == cp(old(s)@, ch(c)),
{
    let e = char_utf8(c);
    put(s, e.as_slice());
}

fn lit1(a: u8) -> (r: Vec<u8>)
    ensures
        r@ == seq![a],
{
    let r: Vec<u8> = vec![a];
    assert(r@ =~= seq![a]);
    r
}

fn lit2(a: u8, b: u8) -> (r: Vec<u8>)
    ensures
        r@ == seq![a, b],
{
    let r: Vec<u8> = vec![a, b];
    assert(r@ =~= seq![a, b]);
    r
}

/// `M{throttle}A{addr}<;>{action}`.
pub open spec fn mta_spec(t: char, addr: Seq<u8>, act: Seq<u8>) -> Seq<u8> {
    cp(cp(cp(cp(cp(cp(Seq::empty(), seq![77u8]), ch(t)), seq![65u8]), addr), property_sep()), act)
}

fn mta_cmd(throttle: char, addr: &[u8], action: &[u8]) -> (r: Cmd)
    ensures
        r@ == mta_spec(throttle, addr@, action@),
{
    let mut s: Cmd = Vec::new();
    put(&mut s, lit1(77).as_slice());
    put_char(&mut s, throttle);
    put(&mut s, lit1(65).as_slice());
    put(&mut s, addr);
    let sep = crate::model::property_sep_bytes();
    put(&mut s, sep.as_slice());
    put(&mut s, action);
    s
}

/// `N{name}`.
pub fn handshake_name(name: &str) -> (r: Cmd)
    ensures
        r@ == cp(cp(Seq::empty(), seq![78u8]), name.spec_bytes()),
{
    handshake_name_bytes(name.as_bytes())
}

pub fn handshake_name_bytes(name: &[u8]) -> (r: Cmd)
    ensures
        r@ == cp(cp(Seq::empty(), seq![78u8]), name@),
{
    let mut s: Cmd = Vec::new();
    put(&mut s, lit1(78).as_slice());
    put(&mut s, name);
    s
}

/// `HU{id}`.
pub fn handshake_id(id: &str) -> (r: Cmd)
    ensures
        r@ == cp(cp(Seq::empty(), seq![72u8, 85u8]), id.spec_bytes()),
{
    handshake_id_bytes(id.as_bytes())
}

pub fn handshake_id_bytes(id: &[u8]) -> (r: Cmd)
    ensures
        r@ == cp(cp(Seq::empty(), seq![72u8, 85u8]), id@),
{
    let mut s: Cmd = Vec::new();
    put(&mut s, lit2(72, 85).as_slice());
    put(&mut s, id);
    s
}

/// `Q`.
pub fn quit() -> (r: Cmd)
    ensures
        r@ == seq![81u8],
{
    lit1(81)
}

/// `*`.
pub fn heartbeat() -> (r: Cmd)
    ensures
        r@ == seq![42u8],
{
    lit1(42)
}

/// `*+` / `*-`: ask the station to enforce (or stop enforcing) the heartbeat timeout.
pub fn heartbeat_enable(on: bool) -> (r: Cmd)
    ensures
        r@ == seq![42u8, if on { 43u8 } else { 45u8 }],
{
    lit2(42, if on {
        43
    } else {
        45
    })
}

/// The dead-man switch is the station-enforced heartbeat (`*+` / `*-`).
pub fn dead_man_switch_enable(on: bool) -> (r: Cmd)
    ensures
        r@ == seq![42u8, if on { 43u8 } else { 45u8 }],
{
    heartbeat_enable(on)
}

/// Seconds between heartbeats for an advertised timeout: half of it, at least one.
pub fn heartbeat_send_period_s(timeout_s: u32) -> (r: u32)
    ensures
        r == (if timeout_s / 2 < 1 { 1 } else { timeout_s / 2 }),
{
    let h = timeout_s / 2;
    if h < 1 {
        1
    } else {
        h
    }
}

/// `M{throttle}{kind}{addr}<;>{tail}`.
pub open spec fn mkind_spec(t: char, kind: u8, addr: Seq<u8>, tail: Seq<u8>) -> Seq<u8> {
    cp(cp(cp(cp(cp(cp(Seq::empty(), seq![77u8]), ch(t)), seq![kind]), addr), property_sep()), tail)
}

fn mkind(throttle: char, kind: u8, addr: &[u8], tail: &[u8]) -> (r: Cmd)
    ensures
        r@ == mkind_spec(throttle, kind, addr@, tail@),
{
    let mut s: Cmd = Vec::new();
    put(&mut s, lit1(77).as_slice());
    put_char(&mut s, throttle);
    put(&mut s, lit1(kind).as_slice());
    put(&mut s, addr);
    let sep = crate::model::property_sep_bytes();
    put(&mut s, sep.as_slice());
    put(&mut s, tail);
    s
}

/// `M{throttle}+{addr}<;>{roster_name}`.
pub fn add_loco(throttle: char, addr: &str, roster_name: &str) -> (r: Cmd)
    ensures
        r@ == mkind_spec(throttle, 43, addr.spec_bytes(), roster_name.spec_bytes()),
{
    mkind(throttle, 43, addr.as_bytes(), roster_name.as_bytes())
}

pub fn add_loco_bytes(throttle: char, addr: &[u8], roster_name: &[u8]) -> (r: Cmd)
    ensures
        r@ == mkind_spec(throttle, 43, addr@, roster_name@),
{
    mkind(throttle, 43, addr, roster_name)
}

/// `M{throttle}-{addr}<;>r`.
pub fn release_loco(throttle: char, addr: &str) -> (r: Cmd)
    ensures
        r@ == mkind_spec(throttle, 45, addr.spec_bytes(), seq![114u8]),
{
    release_loco_bytes(throttle, addr.as_bytes())
}

pub fn release_loco_bytes(throttle: char, addr: &[u8]) -> (r: Cmd)
    ensures
        r@ == mkind_spec(throttle, 45, addr@, seq![114u8]),
{
    mkind(throttle, 45, addr, lit1(114).as_slice())
}

/// `M{throttle}S{addr}<;>{addr}`.
pub fn steal_loco(throttle: char, addr: &str) -> (r: Cmd)
    ensures
        r@ == mkind_spec(throttle, 83, addr.spec_bytes(), addr.spec_bytes()),
{
    steal_loco_bytes(throttle, addr.as_bytes())
}

pub fn steal_loco_bytes(throttle: char, addr: &[u8]) -> (r: Cmd)
    ensures
        r@ == mkind_spec(throttle, 83, addr@, addr@),
{
    mkind(throttle, 83, addr, addr)
}

/// Wire speed: the station reads `V1` as an emergency stop, so speed 1 is sent as 2.
pub open spec fn wire_speed(speed: u8) -> u8 {
    if speed == 1 {
        2
    } else {
        speed
    }
}

/// `M{throttle}A*<;>V{speed}`.
pub fn set_speed(throttle: char, speed: u8) -> (r: Cmd)
    ensures
        r@ == mta_spec(throttle, seq![42u8], seq![86u8] + dec_digits(wire_speed(speed) as nat)),
{
    let mut act: Vec<u8> = lit1(86);
    let v: u8 = if speed == 1 {
        2
    } else {
        speed
    };
    push_decimal(&mut act, v as u64);
    mta_cmd(throttle, lit1(42).as_slice(), act.as_slice())
}

/// Digits of a speed-step count: tens character (from 10 on) then units.
pub open spec fn two_digit(n: u8) -> Seq<u8> {
    if n >= 10 {
        seq![(48 + n / 10) as u8, (48 + n % 10) as u8]
    } else {
        seq![(48 + n % 10) as u8]
    }
}

fn push_two_digit(s: &mut Vec<u8>, n: u8)
    ensures
        final(s)@ == old(s)@ + two_digit(n),
{
    if n >= 10 {
        s.push(48 + n / 10);
    }
    s.push(48 + n % 10);
    assert(s@ =~= old(s)@ + two_digit(n));
}

/// `M{throttle}A*<;>s{steps}`.
pub fn set_speed_steps(throttle: char, steps: u8) -> (r: Cmd)
    ensures
        r@ == mta_spec(throttle, seq![42u8], seq![115u8] + two_digit(steps)),
{
    let mut act: Vec<u8> = lit1(115);
    push_two_digit(&mut act, steps);
    mta_cmd(throttle, lit1(42).as_slice(), act.as_slice())
}

/// `M{throttle}A{addr}<;>R{0|1}`.
pub fn set_direction(throttle: char, addr: &str, dir: Direction) -> (r: Cmd)
    ensures
        r@ == mta_spec(throttle, addr.spec_bytes(), seq![82u8, if dir == Direction::Reverse { 48u8 } else { 49u8 }]),
{
    set_direction_bytes(throttle, addr.as_bytes(), dir)
}

pub fn set_direction_bytes(throttle: char, addr: &[u8], dir: Direction) -> (r: Cmd)
    ensures
        r@ == mta_spec(throttle, addr@, seq![82u8, if dir == Direction::Reverse { 48u8 } else { 49u8 }]),
{
    let d: u8 = match dir {
        Direction::Reverse => 48,
        Direction::Forward => 49,
    };
    mta_cmd(throttle, addr, lit2(82, d).as_slice())
}

/// `M{throttle}A{addr}<;>{F|f}{0|1}{func}`: `f` forces the state, `F` is a key press/release.
pub fn set_function(throttle: char, addr: &str, func: u8, pressed: bool, force: bool) -> (r: Cmd)
    ensures
        r@ == mta_spec(
            throttle,
            addr.spec_bytes(),
            seq![if force { 102u8 } else { 70u8 }, if pressed { 49u8 } else { 48u8 }] + two_digit(func),
        ),
{
    set_function_bytes(throttle, addr.as_bytes(), func, pressed, force)
}

pub fn set_function_bytes(throttle: char, addr: &[u8], func: u8, pressed: bool, force: bool) -> (r: Cmd)
    ensures
        r@ == mta_spec(
            throttle,
            addr@,
            seq![if force { 102u8 } else { 70u8 }, if pressed { 49u8 } else { 48u8 }] + two_digit(func),
        ),
{
    let mut act: Vec<u8> = lit2(if force {
        102
    } else {
        70
    }, if pressed {
        49
    } else {
        48
    });
    push_two_digit(&mut act, func);
    mta_cmd(throttle, addr, act.as_slice())
}

/// `M{throttle}A{addr}<;>X`.
pub fn estop(throttle: char, addr: &str) -> (r: Cmd)
    ensures
        r@ == mta_spec(throttle, addr.spec_bytes(), seq![88u8]),
{
    estop_bytes(throttle, addr.as_bytes())
}

pub fn estop_bytes(throttle: char, addr: &[u8]) -> (r: Cmd)
    ensures
        r@ == mta_spec(throttle, addr@, seq![88u8]),
{
    mta_cmd(throttle, addr, lit1(88).as_slice())
}

/// `PPA1` / `PPA0`.
pub fn track_power(on: bool) -> (r: Cmd)
    ensures
        r@ == seq![80u8, 80, 65, if on { 49u8 } else { 48u8 }],
{
    let r: Vec<u8> = vec![80u8, 80, 65, if on {
        49u8
    } else {
        48u8
    }];
    assert(r@ =~= seq![80u8, 80, 65, if on { 49u8 } else { 48u8 }]);
    r
}

/// A raw line, kept when it fits.
pub fn send_raw(command: &str) -> (r: Cmd)
    ensures
        r@ == cp(Seq::empty(), command.spec_bytes()),
{
    let mut s: Cmd = Vec::new();
    put(&mut s, command.as_bytes());
    s
}

/// A number below 100 is written as its decimal digits, most significant first: they read
/// back as the number.
pub proof fn law_two_digit_reads_back(n: u8)
    requires
        n < 100,
    ensures
        crate::text::parse_unsigned(two_digit(n), 255) == Some(n as nat),
        two_digit(n).len() == (if n >= 10 { 2int } else { 1int }),
{
    let d = two_digit(n);
    assert(crate::text::unsigned_digits(d) == d);
    assert(crate::text::all_digits(d));
    assert(crate::text::digits_value(Seq::<u8>::empty()) == 0);
    if n >= 10 {
        let d1 = seq![d[0]];
        assert(d1.drop_last() =~= Seq::<u8>::empty());
        assert(crate::text::digits_value(d1) == n / 10);
        assert(d.drop_last() =~= d1);
        assert(crate::text::digits_value(d) == (n / 10) * 10 + n % 10);
    } else {
        assert(d.drop_last() =~= Seq::<u8>::empty());
        assert(crate::text::digits_value(d) == n % 10);
    }
}

} // verus!
