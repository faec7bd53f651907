//! Menu screens, battery display modes and the intents the UI hands to the domain.

use crate::action::Action;
use crate::menu::is_cont;
use crate::text::{parse_unsigned, parse_unsigned_range, unsigned_digits};
use crate::persist::{DeviceIdentity, Language, StaticIpConfig};
use crate::ui::view::{append_capped, capped_append, Line, LINE_LEN};
use vstd::prelude::*;
use vstd::string::StringSliceAdditionalSpecFns;

verus! {

#[derive(Clone, Copy, PartialEq, Eq, Debug, Structural)]
pub enum Screen {
    Splash,
    SsidList,
    SsidScan,
    SsidScanning,
    Password,
    ServerList,
    ServerProto,
    ServerEntry,
    Connecting,
    Throttle,
    Menu,
    Extras,
    RosterList,
    FunctionList,
    DirectCommands,
    IpConfig,
    IpEdit,
    Device,
    DeviceNameEdit,
    DeviceIdEdit,
    Language,
    FirmwareUpdate,
    WifiFailed,
    Diagnostics,
}

/// What the UI asks the domain to do.
#[derive(Clone, PartialEq, Eq, Debug)]
pub enum Intent {
    /// Nothing to do.
    Idle,
    Action(Action),
    AcquireAddr,
    AcquireRoster(usize),
    ReleaseAll,
    /// Toggle DCC function `0..=31` (press on, press again off).
    Function(u8),
    WifiScan,
    WifiSelect(usize, bool),
    WifiConnect,
    ServerSelect(usize),
    ServerManual,
    HeartbeatToggle,
    DropBeforeAcquireToggle,
    HashFunctionsToggle,
    Sleep,
    RequestMdns,
    NetConfig,
    SaveNetwork(StaticIpConfig),
    SaveDevice(DeviceIdentity),
    RegenerateDeviceId,
    SetLanguage(Language),
    EnterProgrammingMode,
    SetHttpOta(bool),
}

/// How the battery level is shown.
#[derive(Clone, Copy, PartialEq, Eq, Debug, Structural)]
pub enum BatteryMode {
    Hidden,
    Icon,
    IconPercent,
}

} // verus!

verus! {

/// Twelve digits `###.###.###.###` without separators: four octets.
pub open spec fn ip_digits_spec(d: Seq<u8>) -> Option<Seq<u8>> {
    if d.len() != 12 {
        None
    } else {
        match (
            parse_unsigned(d.subrange(0, 3), 255),
            parse_unsigned(d.subrange(3, 6), 255),
            parse_unsigned(d.subrange(6, 9), 255),
            parse_unsigned(d.subrange(9, 12), 255),
        ) {
            (Some(a), Some(b), Some(c), Some(e)) => Some(seq![a as u8, b as u8, c as u8, e as u8]),
            _ => None,
        }
    }
}

/// Parses the twelve digits of the IP editor. The groups are cut at byte offsets, so each
/// group must start on a character.
pub fn parse_ip_digits(digits: &str) -> (r: Option<[u8; 4]>)
    requires
        digits.spec_bytes().len() == 12 ==> !is_cont(digits.spec_bytes()[3]) && !is_cont(
            digits.spec_bytes()[6],
        ) && !is_cont(digits.spec_bytes()[9]),
    ensures
        match ip_digits_spec(digits.spec_bytes()) {
            Some(ip) => r matches Some(a) && a@ == ip,
            None => r is None,
        },
{
    let d = digits.as_bytes();
    if d.len() != 12 {
        return None;
    }
    let a = match parse_unsigned_range(d, 0, 3, 255) {
        Some(v) => v as u8,
        None => {
            return None;
        },
    };
    let b = match parse_unsigned_range(d, 3, 6, 255) {
        Some(v) => v as u8,
        None => {
            return None;
        },
    };
    let c = match parse_unsigned_range(d, 6, 9, 255) {
        Some(v) => v as u8,
        None => {
            return None;
        },
    };
    let e = match parse_unsigned_range(d, 9, 12, 255) {
        Some(v) => v as u8,
        None => {
            return None;
        },
    };
    let mut ip: [u8; 4] = [0u8; 4];
    ip[0] = a;
    ip[1] = b;
    ip[2] = c;
    ip[3] = e;
    assert(ip@ =~= seq![a, b, c, e]);
    Some(ip)
}

/// The three decimal digits of an octet, hundreds first.
pub open spec fn octet_digits(o: u8) -> Seq<u8> {
    seq![(48 + o / 100) as u8, (48 + (o / 10) % 10) as u8, (48 + o % 10) as u8]
}

/// The twelve editor digits of an address.
pub open spec fn ip_digit_text(ip: Seq<u8>) -> Seq<u8> {
    octet_digits(ip[0]) + octet_digits(ip[1]) + octet_digits(ip[2]) + octet_digits(ip[3])
}

/// Replaces `buf` with the twelve editor digits of `ip`.
pub fn push_ip_digits(buf: &mut Vec<u8>, ip: [u8; 4])
    ensures
        final(buf)@ == ip_digit_text(ip@),
{
    buf.clear();
    let mut k: usize = 0;
    while k < 4
        invariant
            k <= 4,
            buf@ == ip_digit_text(ip@).take(3 * k as int),
        decreases 4 - k,
    {
        let o = ip[k];
        buf.push(48 + o / 100);
        buf.push(48 + (o / 10) % 10);
        buf.push(48 + o % 10);
        assert(ip_digit_text(ip@).take(3 * (k + 1) as int) =~= ip_digit_text(ip@).take(3 * k as int) + octet_digits(ip@[k as int]));
        assert(buf@ =~= ip_digit_text(ip@).take(3 * (k + 1) as int));
        k = k + 1;
    }
    assert(ip_digit_text(ip@).take(12) =~= ip_digit_text(ip@));
}

/// Lower-case hexadecimal digit of a nibble.
pub open spec fn hex_digit(n: u8) -> u8 {
    if n < 10 { (48 + n) as u8 } else { (87 + n) as u8 }
}

fn hex_digit_exec(n: u8) -> (r: u8)
    requires
        n < 16,
    ensures
        r == hex_digit(n),
{
    if n < 10 { 48 + n } else { 87 + n }
}

/// The first `k` bytes of a MAC address as `aa:bb:..`.
pub open spec fn mac_text_n(mac: Seq<u8>, k: nat) -> Seq<u8>
    decreases k,
{
    if k == 0 {
        Seq::empty()
    } else {
        let sep: Seq<u8> = if k > 1 { seq![58u8] } else { Seq::empty() };
        let b = mac[k - 1];
        mac_text_n(mac, (k - 1) as nat) + sep + seq![hex_digit(b / 16), hex_digit(b % 16)]
    }
}

/// A MAC address as six lower-case hex pairs joined by `:`.
pub open spec fn mac_text(mac: Seq<u8>) -> Seq<u8> {
    mac_text_n(mac, 6)
}

/// Appends the MAC address to a display line, as far as the line has room.
pub fn write_mac(line: &mut Line, mac: [u8; 6])
    ensures
        final(line)@ == capped_append(old(line)@, mac_text(mac@), LINE_LEN as nat),
{
    let mut t: Vec<u8> = Vec::new();
    let mut k: usize = 0;
    while k < 6
        invariant
            k <= 6,
            t@ == mac_text_n(mac@, k as nat),
        decreases 6 - k,
    {
        if k > 0 {
            t.push(58);
        }
        let b = mac[k];
        t.push(hex_digit_exec(b / 16));
        t.push(hex_digit_exec(b % 16));
        proof {
            let sep: Seq<u8> = if k + 1 > 1 { seq![58u8] } else { Seq::empty() };
            assert(t@ =~= mac_text_n(mac@, k as nat) + sep + seq![hex_digit(b / 16), hex_digit(b % 16)]);
        }
        k = k + 1;
    }
    append_capped(line, t.as_slice(), LINE_LEN);
}

/// An address as `###.###.###.###`, each octet zero-padded to three digits.
pub open spec fn ip_line_text(ip: Seq<u8>) -> Seq<u8> {
    octet_digits(ip[0]) + seq![46u8] + octet_digits(ip[1]) + seq![46u8] + octet_digits(ip[2])
        + seq![46u8] + octet_digits(ip[3])
}

fn push_octet(t: &mut Vec<u8>, o: u8)
    ensures
        final(t)@ == old(t)@ + octet_digits(o),
{
    t.push(48 + o / 100);
    t.push(48 + (o / 10) % 10);
    t.push(48 + o % 10);
    assert(t@ =~= old(t)@ + octet_digits(o));
}

/// Appends the zero-padded dotted address to a display line, as far as the line has room.
pub fn write_ip_line(line: &mut Line, ip: [u8; 4])
    ensures
        final(line)@ == capped_append(old(line)@, ip_line_text(ip@), LINE_LEN as nat),
{
    let mut t: Vec<u8> = Vec::new();
    push_octet(&mut t, ip[0]);
    t.push(46);
    push_octet(&mut t, ip[1]);
    t.push(46);
    push_octet(&mut t, ip[2]);
    t.push(46);
    push_octet(&mut t, ip[3]);
    assert(t@ =~= ip_line_text(ip@));
    append_capped(line, t.as_slice(), LINE_LEN);
}

/// The four low decimal digits of `n`, thousands first.
pub open spec fn u16_padded_text(n: u16) -> Seq<u8> {
    seq![
        (48 + (n / 1000) % 10) as u8,
        (48 + (n / 100) % 10) as u8,
        (48 + (n / 10) % 10) as u8,
        (48 + n % 10) as u8,
    ]
}

/// Appends the four low decimal digits of `n` to a display line, as far as the line has room.
pub fn write_u16_padded(line: &mut Line, n: u16) -> (r: Result<(), ()>)
    ensures
        r is Ok,
        final(line)@ == capped_append(old(line)@, u16_padded_text(n), LINE_LEN as nat),
{
    let mut t: Vec<u8> = Vec::new();
    t.push(48 + ((n / 1000) % 10) as u8);
    t.push(48 + ((n / 100) % 10) as u8);
    t.push(48 + ((n / 10) % 10) as u8);
    t.push(48 + (n % 10) as u8);
    assert(t@ =~= u16_padded_text(n));
    append_capped(line, t.as_slice(), LINE_LEN);
    Ok(())
}

/// Capacity of the address-and-port editor text: twelve address digits and five port digits.
pub const NET_DIGITS_CAP: usize = 17;

/// The five decimal digits of a port, zero-padded.
pub open spec fn port_digits(port: u16) -> Seq<u8> {
    seq![
        (48 + (port / 10000) % 10) as u8,
        (48 + (port / 1000) % 10) as u8,
        (48 + (port / 100) % 10) as u8,
        (48 + (port / 10) % 10) as u8,
        (48 + port % 10) as u8,
    ]
}

/// Appends the five port digits to the address-and-port editor text, as far as it has room.
pub fn push_port_digits(buf: &mut Vec<u8>, port: u16)
    ensures
        final(buf)@ == capped_append(old(buf)@, port_digits(port), NET_DIGITS_CAP as nat),
{
    let mut t: Vec<u8> = Vec::new();
    t.push(48 + ((port / 10000) % 10) as u8);
    t.push(48 + ((port / 1000) % 10) as u8);
    t.push(48 + ((port / 100) % 10) as u8);
    t.push(48 + ((port / 10) % 10) as u8);
    t.push(48 + (port % 10) as u8);
    assert(t@ =~= port_digits(port));
    append_capped(buf, t.as_slice(), NET_DIGITS_CAP);
}

proof fn lemma_octet_digits_parse(o: u8)
    ensures
        parse_unsigned(octet_digits(o), 255) == Some(o as nat),
{
    let d = octet_digits(o);
    let h = o / 100;
    let t = (o / 10) % 10;
    let u = o % 10;
    assert(d[0] == 48 + h && d[1] == 48 + t && d[2] == 48 + u);
    assert(unsigned_digits(d) == d);
    assert(crate::text::all_digits(d));
    let d1 = seq![d[0]];
    let d2 = seq![d[0], d[1]];
    assert(d1.drop_last() =~= Seq::<u8>::empty());
    assert(crate::text::digits_value(Seq::<u8>::empty()) == 0);
    assert(crate::text::digits_value(d1) == h);
    assert(d2.drop_last() =~= d1);
    assert(crate::text::digits_value(d2) == h * 10 + t);
    assert(d.drop_last() =~= d2);
    assert(crate::text::digits_value(d) == (h * 10 + t) * 10 + u);
    assert((h * 10 + t) * 10 + u == o) by (nonlinear_arith)
        requires
            h == o / 100,
            t == (o / 10) % 10,
            u == o % 10,
    ;
}

proof fn lemma_ip_digit_groups(ip: Seq<u8>)
    requires
        ip.len() == 4,
    ensures
        ip_digit_text(ip).len() == 12,
        ip_digit_text(ip).subrange(0, 3) == octet_digits(ip[0]),
        ip_digit_text(ip).subrange(3, 6) == octet_digits(ip[1]),
        ip_digit_text(ip).subrange(6, 9) == octet_digits(ip[2]),
        ip_digit_text(ip).subrange(9, 12) == octet_digits(ip[3]),
{
    let t = ip_digit_text(ip);
    assert(t.subrange(0, 3) =~= octet_digits(ip[0]));
    assert(t.subrange(3, 6) =~= octet_digits(ip[1]));
    assert(t.subrange(6, 9) =~= octet_digits(ip[2]));
    assert(t.subrange(9, 12) =~= octet_digits(ip[3]));
}

/// Editing an address in the twelve-digit editor and reading it back gives the address.
pub proof fn law_ip_digits_roundtrip(ip: Seq<u8>)
    requires
        ip.len() == 4,
    ensures
        ip_digits_spec(ip_digit_text(ip)) == Some(ip),
{
    lemma_ip_digit_groups(ip);
    lemma_octet_digits_parse(ip[0]);
    lemma_octet_digits_parse(ip[1]);
    lemma_octet_digits_parse(ip[2]);
    lemma_octet_digits_parse(ip[3]);
    assert(seq![ip[0], ip[1], ip[2], ip[3]] =~= ip);
}

} // verus!
