//! Text of the diagnostics pages: battery, version, software, radio range, Wi-Fi and
//! server reachability.

use crate::command::Protocol;
use crate::text::{append_bytes, dec_digits, push_decimal};
use crate::ui::menu::{ip_line_text, mac_text, write_ip_line, write_mac};
use crate::ui::view::{capped_append, lines_view, Line, LINE_LEN};
use vstd::prelude::*;

verus! {

/// Number of diagnostics pages.
pub const DIAG_PAGES: usize = 6;

/// A battery measurement.
#[derive(Clone, Copy, PartialEq, Eq, Debug, Structural)]
pub struct BatteryReading {
    pub percent: u8,
    pub millivolts: u32,
    pub raw: u32,
}

/// The Wi-Fi link the handset is associated with.
#[derive(Clone, Debug)]
pub struct WifiLinkInfo {
    pub rssi: i8,
    pub channel: u8,
    pub ssid: Vec<u8>,
    pub bssid: [u8; 6],
}

/// The station's address configuration.
#[derive(Clone, Copy, PartialEq, Eq, Debug)]
pub struct StationNet {
    pub ip: [u8; 4],
    pub prefix: u8,
    pub gateway: Option<[u8; 4]>,
    pub mac: [u8; 6],
}

/// Outcome of the last server ping.
#[derive(Clone, Copy, PartialEq, Eq, Debug, Structural)]
pub enum PingStatus {
    Ms(u32),
    Timeout,
    Idle,
}

/// Everything the diagnostics pages show, as plain values.
#[derive(Clone, Debug)]
pub struct DiagInputs {
    /// Text shown for a value that is not available.
    pub na: Vec<u8>,
    /// Text shown for a ping that timed out.
    pub timeout_text: Vec<u8>,
    pub battery: Option<BatteryReading>,
    /// The battery conversion factor with one decimal.
    pub factor_text: Vec<u8>,
    pub app_name: Vec<u8>,
    pub fw_version: Vec<u8>,
    pub board_id: Vec<u8>,
    pub board_mcu: Vec<u8>,
    /// Protocol of the live server, else of the last saved one.
    pub protocol: Option<Protocol>,
    pub wifi: Option<WifiLinkInfo>,
    pub station: Option<StationNet>,
    /// Address and port of the live server, else of the last saved one.
    pub endpoint: Option<([u8; 4], u16)>,
    pub ping: PingStatus,
}

/// A display line after writing the text `t`: written whole when it fits, else not at all.
pub open spec fn put_text(line: Seq<u8>, t: Seq<u8>) -> Seq<u8> {
    if line.len() + t.len() <= LINE_LEN { line + t } else { line }
}

/// A line holding the text `t`.
pub open spec fn text_line(t: Seq<u8>) -> Seq<u8> {
    put_text(Seq::empty(), t)
}

/// A signed number: the minus sign and the magnitude's digits are written one after the other.
pub open spec fn put_signed(line: Seq<u8>, v: int) -> Seq<u8> {
    if v < 0 {
        put_text(put_text(line, seq![45u8]), dec_digits((-v) as nat))
    } else {
        put_text(line, dec_digits(v as nat))
    }
}

/// Label of a protocol.
pub open spec fn protocol_label(p: Protocol) -> Seq<u8> {
    match p {
        Protocol::WiThrottle => seq![87u8, 105, 84, 104, 114, 111, 116, 116, 108, 101],
        Protocol::Z21 => seq![90u8, 50, 49],
        Protocol::BigFred => seq![66u8, 105, 103, 70, 114, 101, 100],
    }
}

/// `factor `.
pub open spec fn factor_prefix() -> Seq<u8> {
    seq![102u8, 97, 99, 116, 111, 114, 32]
}

/// `3.2-4.2 V`.
pub open spec fn battery_range() -> Seq<u8> {
    seq![51u8, 46, 50, 45, 52, 46, 50, 32, 86]
}

/// The lines of diagnostics page `page` (the last page covers every page from five on).
pub open spec fn diag_spec(page: int, d: DiagInputs) -> Seq<Seq<u8>> {
    let na = text_line(d.na@);
    if page == 0 {
        let readings = match d.battery {
            Some(b) => seq![
                put_text(text_line(dec_digits(b.percent as nat)), seq![37u8]),
                put_text(text_line(dec_digits(b.millivolts as nat)), seq![32u8, 109, 86]),
                put_text(text_line(seq![65u8, 68, 67, 32]), dec_digits(b.raw as nat)),
            ],
            None => seq![na],
        };
        readings + seq![put_text(text_line(factor_prefix()), d.factor_text@), text_line(battery_range())]
    } else if page == 1 {
        seq![text_line(d.app_name@), text_line(d.fw_version@)]
    } else if page == 2 {
        seq![
            text_line(d.board_id@),
            text_line(d.board_mcu@),
            match d.protocol {
                Some(p) => text_line(protocol_label(p)),
                None => na,
            },
        ]
    } else if page == 3 {
        match d.wifi {
            Some(w) => seq![
                put_text(put_signed(text_line(seq![82u8, 83, 83, 73, 32]), w.rssi as int), seq![32u8, 100, 66]),
                put_text(text_line(seq![99u8, 104, 32]), dec_digits(w.channel as nat)),
            ],
            None => seq![na],
        }
    } else if page == 4 {
        let ssid = match d.wifi {
            Some(w) => text_line(w.ssid@),
            None => na,
        };
        let net = match d.station {
            Some(s) => seq![
                put_text(
                    put_text(capped_append(Seq::empty(), ip_line_text(s.ip@), LINE_LEN as nat), seq![47u8]),
                    dec_digits(s.prefix as nat),
                ),
                match s.gateway {
                    Some(gw) => capped_append(Seq::empty(), ip_line_text(gw@), LINE_LEN as nat),
                    None => na,
                },
                capped_append(text_line(seq![83u8, 84, 65, 32]), mac_text(s.mac@), LINE_LEN as nat),
            ],
            None => seq![na],
        };
        let ap = match d.wifi {
            Some(w) => capped_append(text_line(seq![65u8, 80, 32]), mac_text(w.bssid@), LINE_LEN as nat),
            None => put_text(text_line(seq![65u8, 80, 32]), d.na@),
        };
        seq![ssid] + net + seq![ap]
    } else {
        let ep = match d.endpoint {
            Some((ip, port)) => put_text(
                put_text(capped_append(Seq::empty(), ip_line_text(ip@), LINE_LEN as nat), seq![58u8]),
                dec_digits(port as nat),
            ),
            None => na,
        };
        let ping = match d.ping {
            PingStatus::Ms(ms) => put_text(text_line(dec_digits(ms as nat)), seq![32u8, 109, 115]),
            PingStatus::Timeout => text_line(d.timeout_text@),
            PingStatus::Idle => na,
        };
        seq![ep, ping]
    }
}

fn put_text_exec(line: &mut Line, t: &[u8])
    ensures
        final(line)@ == put_text(old(line)@, t@),
{
    if line.len() <= LINE_LEN && t.len() <= LINE_LEN - line.len() {
        append_bytes(line, t);
    }
}

fn text_line_exec(t: &[u8]) -> (l: Line)
    ensures
        l@ == text_line(t@),
{
    let mut l: Line = Vec::new();
    put_text_exec(&mut l, t);
    l
}

fn put_number(line: &mut Line, n: u64)
    ensures
        final(line)@ == put_text(old(line)@, dec_digits(n as nat)),
{
    let mut d: Vec<u8> = Vec::new();
    push_decimal(&mut d, n);
    assert(d@ =~= dec_digits(n as nat));
    put_text_exec(line, d.as_slice());
}

fn put_signed_exec(line: &mut Line, v: i8)
    ensures
        final(line)@ == put_signed(old(line)@, v as int),
{
    if v < 0 {
        let minus: Vec<u8> = vec![45u8];
        put_text_exec(line, minus.as_slice());
        let mag: u64 = (0i16 - v as i16) as u64;
        put_number(line, mag);
    } else {
        put_number(line, v as u64);
    }
}

fn lit(bytes: &[u8]) -> (r: Vec<u8>)
    ensures
        r@ == bytes@,
{
    let mut r: Vec<u8> = Vec::new();
    append_bytes(&mut r, bytes);
    r
}

fn protocol_label_exec(p: Protocol) -> (r: Vec<u8>)
    ensures
        r@ == protocol_label(p),
{
    let r: Vec<u8> = match p {
        Protocol::WiThrottle => vec![87u8, 105, 84, 104, 114, 111, 116, 116, 108, 101],
        Protocol::Z21 => vec![90u8, 50, 49],
        Protocol::BigFred => vec![66u8, 105, 103, 70, 114, 101, 100],
    };
    assert(r@ =~= protocol_label(p));
    r
}

/// The lines of diagnostics page `page`.
pub fn diag_lines(page: usize, d: &DiagInputs) -> (r: Vec<Line>)
    ensures
        lines_view(r@) == diag_spec(page as int, *d),
{
    let mut r: Vec<Line> = Vec::new();
    if page == 0 {
        match d.battery {
            Some(b) => {
                let mut l1: Line = Vec::new();
                put_number(&mut l1, b.percent as u64);
                let pct: Vec<u8> = vec![37u8];
                put_text_exec(&mut l1, pct.as_slice());
                let mut l2: Line = Vec::new();
                put_number(&mut l2, b.millivolts as u64);
                let mv: Vec<u8> = vec![32u8, 109, 86];
                put_text_exec(&mut l2, mv.as_slice());
                let adc: Vec<u8> = vec![65u8, 68, 67, 32];
                let mut l3 = text_line_exec(adc.as_slice());
                put_number(&mut l3, b.raw as u64);
                assert(pct@ =~= seq![37u8]);
                assert(mv@ =~= seq![32u8, 109, 86]);
                assert(adc@ =~= seq![65u8, 68, 67, 32]);
                r.push(l1);
                r.push(l2);
                r.push(l3);
            },
            None => {
                r.push(text_line_exec(d.na.as_slice()));
            },
        }
        let fp: Vec<u8> = vec![102u8, 97, 99, 116, 111, 114, 32];
        assert(fp@ =~= factor_prefix());
        let mut lf = text_line_exec(fp.as_slice());
        put_text_exec(&mut lf, d.factor_text.as_slice());
        r.push(lf);
        let br: Vec<u8> = vec![51u8, 46, 50, 45, 52, 46, 50, 32, 86];
        assert(br@ =~= battery_range());
        r.push(text_line_exec(br.as_slice()));
    } else if page == 1 {
        r.push(text_line_exec(d.app_name.as_slice()));
        r.push(text_line_exec(d.fw_version.as_slice()));
    } else if page == 2 {
        r.push(text_line_exec(d.board_id.as_slice()));
        r.push(text_line_exec(d.board_mcu.as_slice()));
        match d.protocol {
            Some(p) => {
                let lbl = protocol_label_exec(p);
                r.push(text_line_exec(lbl.as_slice()));
            },
            None => {
                r.push(text_line_exec(d.na.as_slice()));
            },
        }
    } else if page == 3 {
        match &d.wifi {
            Some(w) => {
                let rs: Vec<u8> = vec![82u8, 83, 83, 73, 32];
                let mut l1 = text_line_exec(rs.as_slice());
                put_signed_exec(&mut l1, w.rssi);
                let db: Vec<u8> = vec![32u8, 100, 66];
                put_text_exec(&mut l1, db.as_slice());
                let ch: Vec<u8> = vec![99u8, 104, 32];
                let mut l2 = text_line_exec(ch.as_slice());
                put_number(&mut l2, w.channel as u64);
                assert(rs@ =~= seq![82u8, 83, 83, 73, 32]);
                assert(db@ =~= seq![32u8, 100, 66]);
                assert(ch@ =~= seq![99u8, 104, 32]);
                r.push(l1);
                r.push(l2);
            },
            None => {
                r.push(text_line_exec(d.na.as_slice()));
            },
        }
    } else if page == 4 {
        match &d.wifi {
            Some(w) => {
                r.push(text_line_exec(w.ssid.as_slice()));
            },
            None => {
                r.push(text_line_exec(d.na.as_slice()));
            },
        }
        match d.station {
            Some(s) => {
                let mut l1: Line = Vec::new();
                write_ip_line(&mut l1, s.ip);
                let slash: Vec<u8> = vec![47u8];
                put_text_exec(&mut l1, slash.as_slice());
                put_number(&mut l1, s.prefix as u64);
                assert(slash@ =~= seq![47u8]);
                r.push(l1);
                match s.gateway {
                    Some(gw) => {
                        let mut l2: Line = Vec::new();
                        write_ip_line(&mut l2, gw);
                        r.push(l2);
                    },
                    None => {
                        r.push(text_line_exec(d.na.as_slice()));
                    },
                }
                let sta: Vec<u8> = vec![83u8, 84, 65, 32];
                let mut l3 = text_line_exec(sta.as_slice());
                write_mac(&mut l3, s.mac);
                assert(sta@ =~= seq![83u8, 84, 65, 32]);
                r.push(l3);
            },
            None => {
                r.push(text_line_exec(d.na.as_slice()));
            },
        }
        let ap: Vec<u8> = vec![65u8, 80, 32];
        assert(ap@ =~= seq![65u8, 80, 32]);
        let mut la = text_line_exec(ap.as_slice());
        match &d.wifi {
            Some(w) => {
                write_mac(&mut la, w.bssid);
            },
            None => {
                put_text_exec(&mut la, d.na.as_slice());
            },
        }
        r.push(la);
    } else {
        match d.endpoint {
            Some((ip, port)) => {
                let mut l: Line = Vec::new();
                write_ip_line(&mut l, ip);
                let colon: Vec<u8> = vec![58u8];
                put_text_exec(&mut l, colon.as_slice());
                put_number(&mut l, port as u64);
                assert(colon@ =~= seq![58u8]);
                r.push(l);
            },
            None => {
                r.push(text_line_exec(d.na.as_slice()));
            },
        }
        match d.ping {
            PingStatus::Ms(ms) => {
                let mut l: Line = Vec::new();
                put_number(&mut l, ms as u64);
                let unit: Vec<u8> = vec![32u8, 109, 115];
                put_text_exec(&mut l, unit.as_slice());
                assert(unit@ =~= seq![32u8, 109, 115]);
                r.push(l);
            },
            PingStatus::Timeout => {
                r.push(text_line_exec(d.timeout_text.as_slice()));
            },
            PingStatus::Idle => {
                r.push(text_line_exec(d.na.as_slice()));
            },
        }
    }
    assert(lines_view(r@) =~= diag_spec(page as int, *d));
    r
}

} // verus!
