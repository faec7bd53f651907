//! Menu command helpers: `#` menu commands, IP endpoint entry, password picker.

use crate::text::{bounded_bytes, fit_bytes, parse_unsigned, parse_unsigned_range};
use vstd::prelude::*;
use vstd::string::StringSliceAdditionalSpecFns;

verus! {

/// Placeholder shown for a blank password character.
pub const PW_BLANK_CHAR: u8 = 164;

/// What a `#` menu command asks for.
#[derive(Debug, Clone, PartialEq, Eq)]
pub enum MenuFinish {
    Nothing,
    AcquireAddr(Vec<u8>),
    RosterList,
    ReleaseAll,
    DirectionToggle,
    SpeedMultiplier,
    TurnoutThrowAddr(Vec<u8>),
    TurnoutCloseAddr(Vec<u8>),
    TurnoutList { throw: bool },
    RouteAddr(Vec<u8>),
    RouteList,
    PowerToggle,
    FunctionPress(u8),
    FunctionList,
}

/// Abstract form of a [`MenuFinish`].
pub enum MenuFinishModel {
    Nothing,
    AcquireAddr(Seq<u8>),
    RosterList,
    ReleaseAll,
    DirectionToggle,
    SpeedMultiplier,
    TurnoutThrowAddr(Seq<u8>),
    TurnoutCloseAddr(Seq<u8>),
    TurnoutList { throw: bool },
    RouteAddr(Seq<u8>),
    RouteList,
    PowerToggle,
    FunctionPress(u8),
    FunctionList,
}

impl View for MenuFinish {
    type V = MenuFinishModel;

    open spec fn view(&self) -> MenuFinishModel {
        match self {
            MenuFinish::Nothing => MenuFinishModel::Nothing,
            MenuFinish::AcquireAddr(a) => MenuFinishModel::AcquireAddr(a@),
            MenuFinish::RosterList => MenuFinishModel::RosterList,
            MenuFinish::ReleaseAll => MenuFinishModel::ReleaseAll,
            MenuFinish::DirectionToggle => MenuFinishModel::DirectionToggle,
            MenuFinish::SpeedMultiplier => MenuFinishModel::SpeedMultiplier,
            MenuFinish::TurnoutThrowAddr(a) => MenuFinishModel::TurnoutThrowAddr(a@),
            MenuFinish::TurnoutCloseAddr(a) => MenuFinishModel::TurnoutCloseAddr(a@),
            MenuFinish::TurnoutList { throw } => MenuFinishModel::TurnoutList { throw: *throw },
            MenuFinish::RouteAddr(a) => MenuFinishModel::RouteAddr(a@),
            MenuFinish::RouteList => MenuFinishModel::RouteList,
            MenuFinish::PowerToggle => MenuFinishModel::PowerToggle,
            MenuFinish::FunctionPress(f) => MenuFinishModel::FunctionPress(*f),
            MenuFinish::FunctionList => MenuFinishModel::FunctionList,
        }
    }
}

/// The command after `#`: a digit selecting the menu entry, then an optional argument (at
/// most 8 bytes are kept).
pub open spec fn finish_spec(b: Seq<u8>) -> MenuFinishModel {
    if b.len() == 0 {
        MenuFinishModel::Nothing
    } else {
        let rest = fit_bytes(b.skip(1), 8);
        let f = b[0];
        if f == 48 {
            if rest.len() == 0 {
                MenuFinishModel::FunctionList
            } else {
                match parse_unsigned(rest, 255) {
                    Some(v) => MenuFinishModel::FunctionPress(v as u8),
                    None => MenuFinishModel::Nothing,
                }
            }
        } else if f == 49 {
            if rest.len() == 0 { MenuFinishModel::RosterList } else { MenuFinishModel::AcquireAddr(rest) }
        } else if f == 50 {
            MenuFinishModel::ReleaseAll
        } else if f == 51 {
            MenuFinishModel::DirectionToggle
        } else if f == 52 {
            MenuFinishModel::SpeedMultiplier
        } else if f == 53 {
            if rest.len() == 0 { MenuFinishModel::TurnoutList { throw: true } } else { MenuFinishModel::TurnoutThrowAddr(rest) }
        } else if f == 54 {
            if rest.len() == 0 { MenuFinishModel::TurnoutList { throw: false } } else { MenuFinishModel::TurnoutCloseAddr(rest) }
        } else if f == 55 {
            if rest.len() == 0 { MenuFinishModel::RouteList } else { MenuFinishModel::RouteAddr(rest) }
        } else if f == 56 {
            MenuFinishModel::PowerToggle
        } else {
            MenuFinishModel::Nothing
        }
    }
}

/// Interprets a menu command after `#` (without a leading asterisk).
pub fn finish_menu(cmd: &str) -> (r: MenuFinish)
    ensures
        r@ == finish_spec(cmd.spec_bytes()),
{
    let b = cmd.as_bytes();
    if b.len() == 0 {
        return MenuFinish::Nothing;
    }
    let first = b[0];
    if first < 48 || first > 56 {
        return MenuFinish::Nothing;
    }
    let tail = crate::text::copy_range(b, 1, b.len());
    assert(tail@ =~= b@.skip(1));
    let rest = bounded_bytes(tail.as_slice(), 8);
    let empty = rest.len() == 0;
    if first == 48 {
        if empty {
            MenuFinish::FunctionList
        } else {
            assert(rest@.subrange(0, rest@.len() as int) =~= rest@);
            match parse_unsigned_range(rest.as_slice(), 0, rest.len(), 255) {
                Some(v) => MenuFinish::FunctionPress(v as u8),
                None => MenuFinish::Nothing,
            }
        }
    } else if first == 49 {
        if empty {
            MenuFinish::RosterList
        } else {
            MenuFinish::AcquireAddr(rest)
        }
    } else if first == 50 {
        MenuFinish::ReleaseAll
    } else if first == 51 {
        MenuFinish::DirectionToggle
    } else if first == 52 {
        MenuFinish::SpeedMultiplier
    } else if first == 53 {
        if empty {
            MenuFinish::TurnoutList { throw: true }
        } else {
            MenuFinish::TurnoutThrowAddr(rest)
        }
    } else if first == 54 {
        if empty {
            MenuFinish::TurnoutList { throw: false }
        } else {
            MenuFinish::TurnoutCloseAddr(rest)
        }
    } else if first == 55 {
        if empty {
            MenuFinish::RouteList
        } else {
            MenuFinish::RouteAddr(rest)
        }
    } else {
        MenuFinish::PowerToggle
    }
}

/// Whether byte `b` continues a UTF-8 character.
pub open spec fn is_cont(b: u8) -> bool {
    0x80 <= b <= 0xBF
}

/// Seventeen digits `###.###.###.###:#####` without separators: four octets and a port.
pub open spec fn ip_endpoint_spec(d: Seq<u8>) -> Option<(Seq<u8>, u16)> {
    if d.len() != 17 {
        None
    } else {
        match (
            parse_unsigned(d.subrange(0, 3), 255),
            parse_unsigned(d.subrange(3, 6), 255),
            parse_unsigned(d.subrange(6, 9), 255),
            parse_unsigned(d.subrange(9, 12), 255),
            parse_unsigned(d.subrange(12, 17), 65535),
        ) {
            (Some(a), Some(b), Some(c), Some(e), Some(p)) => Some((seq![a as u8, b as u8, c as u8, e as u8], p as u16)),
            _ => None,
        }
    }
}

/// Parses 17 digits `###.###.###.###:#####` (no separators). The groups are cut at byte
/// offsets, so each group must start on a character.
pub fn parse_ip_endpoint(digits: &str) -> (r: Option<([u8; 4], u16)>)
    requires
        digits.spec_bytes().len() == 17 ==> !is_cont(digits.spec_bytes()[3]) && !is_cont(
            digits.spec_bytes()[6],
        ) && !is_cont(digits.spec_bytes()[9]) && !is_cont(digits.spec_bytes()[12]),
    ensures
        match ip_endpoint_spec(digits.spec_bytes()) {
            Some((ip, port)) => r matches Some((a, p)) && a@ == ip && p == port,
            None => r is None,
        },
{
    let d = digits.as_bytes();
    if d.len() != 17 {
        return None;
    }
    let a = match parse_unsigned_range(d, 0, 3, 255) {
        Some(v) => v as u8,
        None => {
            return None;
        },
    };
    let b = match parse_unsigned_range(d, 3, 6, 255) {
        Some(v) => v as u8,
        None => {
            return None;
        },
    };
    let c = match parse_unsigned_range(d, 6, 9, 255) {
        Some(v) => v as u8,
        None => {
            return None;
        },
    };
    let e = match parse_unsigned_range(d, 9, 12, 255) {
        Some(v) => v as u8,
        None => {
            return None;
        },
    };
    let port = match parse_unsigned_range(d, 12, 17, 65535) {
        Some(v) => v as u16,
        None => {
            return None;
        },
    };
    let mut ip: [u8; 4] = [0u8; 4];
    ip[0] = a;
    ip[1] = b;
    ip[2] = c;
    ip[3] = e;
    assert(ip@ =~= seq![a, b, c, e]);
    Some((ip, port))
}

/// Next character of the password picker (printable ASCII 32..=126, wrapping; the blank
/// placeholder steps to `B` clockwise and `@` counter-clockwise). Clockwise goes down.
pub open spec fn step_pw_spec(cur: u8, cw: bool) -> u8 {
    if cur == PW_BLANK_CHAR {
        if cw { 66 } else { 64 }
    } else if cw {
        if cur as int - 1 < 32 { 126 } else { (cur - 1) as u8 }
    } else {
        if cur as int + 1 > 126 { 32 } else { (cur + 1) as u8 }
    }
}

pub fn step_pw_char(cur: u8, cw: bool) -> (r: u8)
    ensures
        r == step_pw_spec(cur, cw),
{
    if cur == PW_BLANK_CHAR {
        return if cw {
            66
        } else {
            64
        };
    }
    let mut c: i32 = cur as i32;
    if cw {
        c = c - 1;
        if c < 32 {
            c = 126;
        }
    } else {
        c = c + 1;
        if c > 126 {
            c = 32;
        }
    }
    c as u8
}

/// Stepping one way then the other returns to any printable character.
pub proof fn law_pw_step_inverse(cur: u8, cw: bool)
    requires
        32 <= cur <= 126,
    ensures
        step_pw_spec(step_pw_spec(cur, cw), !cw) == cur,
{
}

} // verus!
