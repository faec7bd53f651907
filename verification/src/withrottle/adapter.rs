//! WiThrottle session adapter: line framing around the command builders and the parser.

use crate::adapter::{wb_append, wire_extend, WireBuf, WIRE_BUF_CAP};
use crate::command::{loco_wire, ClientCommand, LocoId};
use crate::events::{events_view, EventModel, ServerEvent};
use crate::model::{throttle_ch, throttle_char_u8, Direction};
use crate::text::{bounded_bytes, fit_bytes, wire_len, wire_width};
use crate::withrottle::parser::{line_ok, parse, parse_ok, parse_spec};
use crate::withrottle::protocol::{
    add_loco_bytes, ch, cp, dead_man_switch_enable, estop_bytes, handshake_id_bytes,
    handshake_name_bytes, heartbeat, mkind_spec, mta_spec, quit, release_loco_bytes,
    set_direction_bytes, set_function_bytes, set_speed, steal_loco_bytes, track_power, two_digit,
    wire_speed,
};
use vstd::prelude::*;
use vstd::string::StringSliceAdditionalSpecFns;

verus! {

/// Capacity of the receive line in UTF-8 bytes.
pub const LINE_CAP: usize = 256;

/// WiThrottle session: identity, receive line, heartbeat period and line-ending options.
pub struct WtAdapter {
    pub name: Vec<u8>,
    pub id: Vec<u8>,
    /// Received characters of the current line (wire text).
    pub line: Vec<u8>,
    /// UTF-8 size of `line`.
    pub line_len: usize,
    pub heartbeat_period: u32,
    pub leading_crlf: bool,
    pub send_leading_crlf: bool,
    pub dead_man_switch_on: bool,
}

pub open spec fn crlf() -> Seq<u8> {
    seq![13u8, 10u8]
}

/// The line after one received byte other than LF: CR is skipped; a character that would
/// overflow the line discards it.
pub open spec fn line_step(line: Seq<u8>, b: u8) -> Seq<u8> {
    if b == 13 {
        line
    } else if wire_len(line) + wire_width(b) > LINE_CAP {
        Seq::empty()
    } else {
        line.push(b)
    }
}

/// Heartbeat period after the events of one line: the last advertised timeout (at least 1).
pub open spec fn period_after(p: u32, ev: Seq<EventModel>) -> u32
    decreases ev.len(),
{
    if ev.len() == 0 {
        p
    } else {
        let q = period_after(p, ev.drop_last());
        match ev.last() {
            EventModel::HeartbeatConfig { seconds } => if seconds < 1 {
                1
            } else {
                seconds
            },
            _ => q,
        }
    }
}

/// Received bytes: complete lines (ended by LF) are parsed; the rest stays in the line.
/// Returns the line, the heartbeat period and the events.
pub open spec fn decode_wt(line: Seq<u8>, p: u32, data: Seq<u8>) -> (Seq<u8>, u32, Seq<EventModel>)
    decreases data.len(),
{
    if data.len() == 0 {
        (line, p, Seq::empty())
    } else if data[0] == 10 {
        let ev = parse_spec(line);
        let (l2, p2, e2) = decode_wt(Seq::empty(), period_after(p, ev), data.skip(1));
        (l2, p2, ev + e2)
    } else {
        decode_wt(line_step(line, data[0]), p, data.skip(1))
    }
}

/// Every line completed by `data` is one the parser accepts.
pub open spec fn decode_wt_ok(line: Seq<u8>, data: Seq<u8>) -> bool
    decreases data.len(),
{
    if data.len() == 0 {
        true
    } else if data[0] == 10 {
        parse_ok(line) && decode_wt_ok(Seq::empty(), data.skip(1))
    } else {
        decode_wt_ok(line_step(line, data[0]), data.skip(1))
    }
}

/// One line out: a leading CR/LF once per session when asked for, then the line and CR/LF.
/// Returns whether the leading CR/LF has been sent, and the bytes out.
pub open spec fn push_line_spec(send_leading: bool, sent: bool, out: Seq<u8>, cmd: Seq<u8>) -> (bool, Seq<u8>) {
    let (s2, o1) = if send_leading && !sent {
        (true, wb_append(out, crlf()))
    } else {
        (sent, out)
    };
    (s2, wb_append(wb_append(o1, cmd), crlf()))
}

/// Sending one command line from adapter `a`: whether the leading CR/LF has been sent
/// afterwards, and the outgoing bytes.
pub open spec fn wt_send(a: WtAdapter, out: Seq<u8>, cmd: Seq<u8>) -> (bool, Seq<u8>) {
    push_line_spec(a.send_leading_crlf, a.leading_crlf, out, cmd)
}

/// The handshake lines: `HU{id}`, `N{name}`, then `*+` or `*-` for the dead-man switch.
pub open spec fn wt_handshake(a: WtAdapter, out: Seq<u8>) -> (bool, Seq<u8>) {
    let (s1, o1) = push_line_spec(a.send_leading_crlf, a.leading_crlf, out, cp(cp(Seq::empty(), seq![72u8, 85u8]), a.id@));
    let (s2, o2) = push_line_spec(a.send_leading_crlf, s1, o1, cp(cp(Seq::empty(), seq![78u8]), a.name@));
    push_line_spec(a.send_leading_crlf, s2, o2, seq![42u8, if a.dead_man_switch_on { 43u8 } else { 45u8 }])
}

impl WtAdapter {
    /// Everything but the leading-CR/LF flag is as in `before`.
    pub open spec fn keeps_session(&self, before: WtAdapter) -> bool {
        &&& self.name == before.name
        &&& self.id == before.id
        &&& self.line == before.line
        &&& self.line_len == before.line_len
        &&& self.heartbeat_period == before.heartbeat_period
        &&& self.send_leading_crlf == before.send_leading_crlf
        &&& self.dead_man_switch_on == before.dead_man_switch_on
    }
}

/// The line a command is sent as (`None` for commands WiThrottle does not carry).
pub open spec fn wt_line(cmd: ClientCommand) -> Option<Seq<u8>> {
    match cmd {
        ClientCommand::AddLoco { throttle, loco, name } => Some(
            mkind_spec(throttle_ch(throttle), 43, loco_wire(loco), name@),
        ),
        ClientCommand::ReleaseThrottle { throttle } => Some(
            mkind_spec(throttle_ch(throttle), 45, seq![42u8], seq![114u8]),
        ),
        ClientCommand::SetSpeed { throttle, speed } => Some(
            mta_spec(throttle_ch(throttle), seq![42u8], seq![86u8] + crate::text::dec_digits(wire_speed(speed) as nat)),
        ),
        ClientCommand::SetDirection { throttle, loco, dir } => Some(
            mta_spec(
                throttle_ch(throttle),
                match loco {
                    Some(l) => loco_wire(l),
                    None => seq![42u8],
                },
                seq![82u8, if dir == Direction::Reverse { 48u8 } else { 49u8 }],
            ),
        ),
        ClientCommand::EStop { throttle } => Some(mta_spec(throttle_ch(throttle), seq![42u8], seq![88u8])),
        ClientCommand::SetFunction { throttle, func, on, .. } => Some(
            mta_spec(
                throttle_ch(throttle),
                seq![42u8],
                seq![102u8, if on { 49u8 } else { 48u8 }] + two_digit(func),
            ),
        ),
        ClientCommand::TrackPower(on) => Some(seq![80u8, 80, 65, if on { 49u8 } else { 48u8 }]),
        ClientCommand::SetDeadManSwitch(on) => Some(seq![42u8, if on { 43u8 } else { 45u8 }]),
        ClientCommand::Steal { throttle, loco } => Some(
            mkind_spec(throttle_ch(throttle), 83, loco_wire(loco), loco_wire(loco)),
        ),
        ClientCommand::Pair { .. } => None,
    }
}

/// Commands whose throttle has a wire character.
pub open spec fn wt_cmd_ok(cmd: ClientCommand) -> bool {
    match cmd {
        ClientCommand::AddLoco { throttle, .. } => throttle < 208,
        ClientCommand::ReleaseThrottle { throttle } => throttle < 208,
        ClientCommand::SetSpeed { throttle, .. } => throttle < 208,
        ClientCommand::SetDirection { throttle, .. } => throttle < 208,
        ClientCommand::EStop { throttle } => throttle < 208,
        ClientCommand::SetFunction { throttle, .. } => throttle < 208,
        ClientCommand::Steal { throttle, .. } => throttle < 208,
        _ => true,
    }
}

fn lit_crlf() -> (r: Vec<u8>)
    ensures
        r@ == crlf(),
{
    let r: Vec<u8> = vec![13u8, 10u8];
    assert(r@ =~= crlf());
    r
}

impl WtAdapter {
    /// The line holds no line ending and its recorded UTF-8 size is right and within the cap.
    pub open spec fn wf(&self) -> bool {
        &&& self.line_len == wire_len(self.line@)
        &&& self.line_len <= LINE_CAP
        &&& self.heartbeat_period >= 1
    }

    /// `name` and `id` are kept when they fit 32 bytes; the heartbeat period is at least 1.
    pub fn new(name: &str, id: &str, hb_period: u32, send_leading_crlf: bool, dead_man_switch_on: bool) -> (a: WtAdapter)
        ensures
            a.wf(),
            a.name@ == fit_bytes(name.spec_bytes(), 32),
            a.id@ == fit_bytes(id.spec_bytes(), 32),
            a.line@.len() == 0,
            a.heartbeat_period == (if hb_period < 1 { 1 } else { hb_period }),
            !a.leading_crlf,
            a.send_leading_crlf == send_leading_crlf,
            a.dead_man_switch_on == dead_man_switch_on,
    {
        WtAdapter {
            name: bounded_bytes(name.as_bytes(), 32),
            id: bounded_bytes(id.as_bytes(), 32),
            line: Vec::new(),
            line_len: 0,
            heartbeat_period: if hb_period < 1 {
                1
            } else {
                hb_period
            },
            leading_crlf: false,
            send_leading_crlf,
            dead_man_switch_on,
        }
    }

    fn push_line(&mut self, out: &mut WireBuf, cmd: &[u8])
        ensures
            ({
                let (s2, o) = push_line_spec(old(self).send_leading_crlf, old(self).leading_crlf, old(out)@, cmd@);
                &&& final(self).leading_crlf == s2
                &&& final(out)@ == o
            }),
            final(self).name == old(self).name,
            final(self).id == old(self).id,
            final(self).line == old(self).line,
            final(self).line_len == old(self).line_len,
            final(self).heartbeat_period == old(self).heartbeat_period,
            final(self).send_leading_crlf == old(self).send_leading_crlf,
            final(self).dead_man_switch_on == old(self).dead_man_switch_on,
    {
        let nl = lit_crlf();
        if self.send_leading_crlf && !self.leading_crlf {
            wire_extend(out, nl.as_slice());
            self.leading_crlf = true;
        }
        wire_extend(out, cmd);
        wire_extend(out, nl.as_slice());
    }

    /// Handshake: device id, then name, then the dead-man switch setting.
    pub fn on_connect(&mut self, out: &mut WireBuf, events: &mut Vec<ServerEvent>)
        ensures
            ({
                let (s1, o1) = push_line_spec(old(self).send_leading_crlf, old(self).leading_crlf, old(out)@, cp(cp(Seq::empty(), seq![72u8, 85u8]), old(self).id@));
                let (s2, o2) = push_line_spec(old(self).send_leading_crlf, s1, o1, cp(cp(Seq::empty(), seq![78u8]), old(self).name@));
                let (s3, o3) = push_line_spec(old(self).send_leading_crlf, s2, o2, seq![42u8, if old(self).dead_man_switch_on { 43u8 } else { 45u8 }]);
                final(self).leading_crlf == s3 && final(out)@ == o3
            }),
            final(self).line == old(self).line,
            final(self).line_len == old(self).line_len,
            final(self).heartbeat_period == old(self).heartbeat_period,
            final(self).send_leading_crlf == old(self).send_leading_crlf,
            final(self).dead_man_switch_on == old(self).dead_man_switch_on,
            final(self).name == old(self).name,
            final(self).id == old(self).id,
            final(events)@ == old(events)@,
    {
        let a = handshake_id_bytes(self.id.as_slice());
        self.push_line(out, a.as_slice());
        let b = handshake_name_bytes(self.name.as_slice());
        self.push_line(out, b.as_slice());
        let c = dead_man_switch_enable(self.dead_man_switch_on);
        self.push_line(out, c.as_slice());
    }

    /// Leaving the session: `Q`.
    pub fn on_disconnect(&mut self, out: &mut WireBuf)
        ensures
            ({
                let (s, o) = push_line_spec(old(self).send_leading_crlf, old(self).leading_crlf, old(out)@, seq![81u8]);
                final(self).leading_crlf == s && final(out)@ == o
            }),
            final(self).line == old(self).line,
            final(self).line_len == old(self).line_len,
            final(self).heartbeat_period == old(self).heartbeat_period,
            final(self).send_leading_crlf == old(self).send_leading_crlf,
            final(self).dead_man_switch_on == old(self).dead_man_switch_on,
            final(self).name == old(self).name,
            final(self).id == old(self).id,
    {
        let q = quit();
        self.push_line(out, q.as_slice());
    }

    /// Explicit disconnect by the operator: `Q` as well.
    pub fn on_unpair(&mut self, out: &mut WireBuf)
        ensures
            ({
                let (s, o) = push_line_spec(old(self).send_leading_crlf, old(self).leading_crlf, old(out)@, seq![81u8]);
                final(self).leading_crlf == s && final(out)@ == o
            }),
            final(self).line == old(self).line,
            final(self).line_len == old(self).line_len,
            final(self).heartbeat_period == old(self).heartbeat_period,
            final(self).send_leading_crlf == old(self).send_leading_crlf,
            final(self).dead_man_switch_on == old(self).dead_man_switch_on,
            final(self).name == old(self).name,
            final(self).id == old(self).id,
    {
        self.on_disconnect(out);
    }

    /// Keep-alive: `*`.
    pub fn on_tick(&mut self, out: &mut WireBuf) -> (r: bool)
        ensures
            r,
            ({
                let (s, o) = push_line_spec(old(self).send_leading_crlf, old(self).leading_crlf, old(out)@, seq![42u8]);
                final(self).leading_crlf == s && final(out)@ == o
            }),
            final(self).line == old(self).line,
            final(self).line_len == old(self).line_len,
            final(self).heartbeat_period == old(self).heartbeat_period,
            final(self).send_leading_crlf == old(self).send_leading_crlf,
            final(self).dead_man_switch_on == old(self).dead_man_switch_on,
            final(self).name == old(self).name,
            final(self).id == old(self).id,
    {
        let h = heartbeat();
        self.push_line(out, h.as_slice());
        true
    }

    /// Function switch on throttle `throttle` for all its locos; `force` sends the
    /// absolute-state form.
    pub fn encode_function(&mut self, throttle: u8, func: u8, on: bool, force: bool, out: &mut WireBuf)
        requires
            throttle < 208,
        ensures
            ({
                let line = mta_spec(
                    throttle_ch(throttle),
                    seq![42u8],
                    seq![if force { 102u8 } else { 70u8 }, if on { 49u8 } else { 48u8 }] + two_digit(func),
                );
                let (s, o) = push_line_spec(old(self).send_leading_crlf, old(self).leading_crlf, old(out)@, line);
                final(self).leading_crlf == s && final(out)@ == o
            }),
            final(self).line == old(self).line,
            final(self).line_len == old(self).line_len,
            final(self).heartbeat_period == old(self).heartbeat_period,
            final(self).send_leading_crlf == old(self).send_leading_crlf,
            final(self).dead_man_switch_on == old(self).dead_man_switch_on,
            final(self).name == old(self).name,
            final(self).id == old(self).id,
    {
        let star: Vec<u8> = vec![42u8];
        assert(star@ =~= seq![42u8]);
        let l = set_function_bytes(throttle_char_u8(throttle), star.as_slice(), func, on, force);
        self.push_line(out, l.as_slice());
    }

    /// Sends the line for one command (`SetDeadManSwitch` also records the setting; `Pair`
    /// sends nothing).
    pub fn encode(&mut self, cmd: &ClientCommand, out: &mut WireBuf, events: &mut Vec<ServerEvent>)
        requires
            wt_cmd_ok(*cmd),
        ensures
            match wt_line(*cmd) {
                Some(line) => {
                    let (s, o) = push_line_spec(old(self).send_leading_crlf, old(self).leading_crlf, old(out)@, line);
                    final(self).leading_crlf == s && final(out)@ == o
                },
                None => final(self).leading_crlf == old(self).leading_crlf && final(out)@ == old(out)@,
            },
            final(self).dead_man_switch_on == (match *cmd {
                ClientCommand::SetDeadManSwitch(on) => on,
                _ => old(self).dead_man_switch_on,
            }),
            final(self).line == old(self).line,
            final(self).line_len == old(self).line_len,
            final(self).heartbeat_period == old(self).heartbeat_period,
            final(self).send_leading_crlf == old(self).send_leading_crlf,
            final(self).name == old(self).name,
            final(self).id == old(self).id,
            final(events)@ == old(events)@,
    {
        let star: Vec<u8> = vec![42u8];
        assert(star@ =~= seq![42u8]);
        match cmd {
            ClientCommand::AddLoco { throttle, loco, name } => {
                let a = loco.to_wire();
                let l = add_loco_bytes(throttle_char_u8(*throttle), a.as_slice(), name.as_slice());
                self.push_line(out, l.as_slice());
            },
            ClientCommand::ReleaseThrottle { throttle } => {
                let l = release_loco_bytes(throttle_char_u8(*throttle), star.as_slice());
                self.push_line(out, l.as_slice());
            },
            ClientCommand::SetSpeed { throttle, speed } => {
                let l = set_speed(throttle_char_u8(*throttle), *speed);
                self.push_line(out, l.as_slice());
            },
            ClientCommand::SetDirection { throttle, loco, dir } => {
                let addr: Vec<u8> = match loco {
                    Some(l) => l.to_wire(),
                    None => star,
                };
                let l = set_direction_bytes(throttle_char_u8(*throttle), addr.as_slice(), *dir);
                self.push_line(out, l.as_slice());
            },
            ClientCommand::EStop { throttle } => {
                let l = estop_bytes(throttle_char_u8(*throttle), star.as_slice());
                self.push_line(out, l.as_slice());
            },
            ClientCommand::SetFunction { throttle, func, on, .. } => {
                self.encode_function(*throttle, *func, *on, true, out);
            },
            ClientCommand::TrackPower(on) => {
                let l = track_power(*on);
                self.push_line(out, l.as_slice());
            },
            ClientCommand::SetDeadManSwitch(on) => {
                self.dead_man_switch_on = *on;
                let l = dead_man_switch_enable(*on);
                self.push_line(out, l.as_slice());
            },
            ClientCommand::Steal { throttle, loco } => {
                let a = loco.to_wire();
                let l = steal_loco_bytes(throttle_char_u8(*throttle), a.as_slice());
                self.push_line(out, l.as_slice());
            },
            ClientCommand::Pair { .. } => {},
        }
    }
}

} // verus!

verus! {

fn period_over(p: u32, evs: &Vec<ServerEvent>) -> (r: u32)
    ensures
        r == period_after(p, events_view(evs@)),
        p >= 1 ==> r >= 1,
{
    let mut q = p;
    let mut j: usize = 0;
    while j < evs.len()
        invariant
            j <= evs@.len(),
            q == period_after(p, events_view(evs@).take(j as int)),
            p >= 1 ==> q >= 1,
        decreases evs@.len() - j,
    {
        assert(events_view(evs@).take(j + 1).drop_last() =~= events_view(evs@).take(j as int));
        assert(events_view(evs@).take(j + 1).last() == evs@[j as int]@);
        match &evs[j] {
            ServerEvent::HeartbeatConfig { seconds } => {
                q = if *seconds < 1 {
                    1
                } else {
                    *seconds
                };
            },
            _ => {},
        }
        j = j + 1;
    }
    assert(events_view(evs@).take(j as int) =~= events_view(evs@));
    q
}

impl WtAdapter {
    /// Feeds received bytes: every LF ends a line, which is parsed and cleared; CR is
    /// skipped. An advertised heartbeat timeout becomes the heartbeat period.
    pub fn decode(&mut self, data: &[u8], events: &mut Vec<ServerEvent>)
        requires
            old(self).wf(),
            decode_wt_ok(old(self).line@, data@),
        ensures
            final(self).wf(),
            ({
                let (l, p, ev) = decode_wt(old(self).line@, old(self).heartbeat_period, data@);
                &&& final(self).line@ == l
                &&& final(self).heartbeat_period == p
                &&& events_view(final(events)@) == events_view(old(events)@) + ev
            }),
            final(self).leading_crlf == old(self).leading_crlf,
            final(self).send_leading_crlf == old(self).send_leading_crlf,
            final(self).dead_man_switch_on == old(self).dead_man_switch_on,
            final(self).name == old(self).name,
            final(self).id == old(self).id,
    {
        let ghost ev0 = events_view(events@);
        let ghost l0 = self.line@;
        let ghost p0 = self.heartbeat_period;
        let ghost mut acc: Seq<EventModel> = Seq::empty();
        let n = data.len();
        let mut i: usize = 0;
        assert(data@.skip(0) =~= data@);
        assert(ev0 + acc =~= ev0);
        while i < n
            invariant
                n == data@.len(),
                i <= n,
                self.wf(),
                self.leading_crlf == old(self).leading_crlf,
                self.send_leading_crlf == old(self).send_leading_crlf,
                self.dead_man_switch_on == old(self).dead_man_switch_on,
                self.name == old(self).name,
                self.id == old(self).id,
                events_view(events@) == ev0 + acc,
                decode_wt_ok(self.line@, data@.skip(i as int)),
                ({
                    let (lr, pr, er) = decode_wt(self.line@, self.heartbeat_period, data@.skip(i as int));
                    decode_wt(l0, p0, data@) == (lr, pr, acc + er)
                }),
            decreases n - i,
        {
            let b = data[i];
            let ghost rest = data@.skip(i as int);
            assert(rest[0] == b);
            assert(rest.skip(1) =~= data@.skip(i + 1));
            if b == 10 {
                let mut evs = parse(self.line.as_slice());
                let ghost ev = events_view(evs@);
                self.heartbeat_period = period_over(self.heartbeat_period, &evs);
                let ghost before = events@;
                events.append(&mut evs);
                proof {
                    assert(events_view(events@) =~= events_view(before) + ev);
                    let (l2, p2, e2) = decode_wt(Seq::empty(), self.heartbeat_period, data@.skip(i + 1));
                    assert(acc + (ev + e2) =~= (acc + ev) + e2);
                    acc = acc + ev;
                    assert(events_view(events@) =~= ev0 + acc);
                }
                self.line.clear();
                self.line_len = 0;
                assert(self.line@ =~= Seq::<u8>::empty());
            } else if b != 13 {
                let w: usize = if b < 128 {
                    1
                } else {
                    2
                };
                if self.line_len + w > LINE_CAP {
                    self.line.clear();
                    self.line_len = 0;
                    assert(self.line@ =~= Seq::<u8>::empty());
                } else {
                    let ghost old_line = self.line@;
                    self.line.push(b);
                    proof {
                        assert(self.line@.drop_last() =~= old_line);
                    }
                    self.line_len = self.line_len + w;
                }
            }
            i = i + 1;
        }
        proof {
            assert(data@.skip(i as int).len() == 0);
            assert(acc + Seq::<EventModel>::empty() =~= acc);
        }
    }
}

} // verus!

verus! {

/// Received bytes may arrive split anywhere: decoding two chunks in turn gives the same
/// pending line, heartbeat period and events as decoding them at once.
pub proof fn law_decode_chunks(line: Seq<u8>, p: u32, a: Seq<u8>, b: Seq<u8>)
    ensures
        ({
            let (l1, p1, e1) = decode_wt(line, p, a);
            let (l2, p2, e2) = decode_wt(l1, p1, b);
            decode_wt(line, p, a + b) == (l2, p2, e1 + e2)
        }),
    decreases a.len(),
{
    if a.len() == 0 {
        assert(a + b =~= b);
        let (l2, p2, e2) = decode_wt(line, p, b);
        assert(Seq::<EventModel>::empty() + e2 =~= e2);
    } else {
        assert((a + b)[0] == a[0]);
        assert((a + b).skip(1) =~= a.skip(1) + b);
        if a[0] == 10 {
            let ev = parse_spec(line);
            let q = period_after(p, ev);
            law_decode_chunks(Seq::empty(), q, a.skip(1), b);
            let (l1, p1, e1) = decode_wt(Seq::empty(), q, a.skip(1));
            let (l2, p2, e2) = decode_wt(l1, p1, b);
            assert(ev + (e1 + e2) =~= (ev + e1) + e2);
        } else {
            law_decode_chunks(line_step(line, a[0]), p, a.skip(1), b);
        }
    }
}

/// The same holds of which received bytes the parser accepts.
pub proof fn law_decode_ok_chunks(line: Seq<u8>, a: Seq<u8>, b: Seq<u8>, p: u32)
    ensures
        decode_wt_ok(line, a + b) == (decode_wt_ok(line, a) && decode_wt_ok(decode_wt(line, p, a).0, b)),
    decreases a.len(),
{
    if a.len() == 0 {
        assert(a + b =~= b);
    } else {
        assert((a + b)[0] == a[0]);
        assert((a + b).skip(1) =~= a.skip(1) + b);
        if a[0] == 10 {
            let ev = parse_spec(line);
            law_decode_ok_chunks(Seq::empty(), a.skip(1), b, period_after(p, ev));
        } else {
            law_decode_ok_chunks(line_step(line, a[0]), a.skip(1), b, p);
        }
    }
}

impl WtAdapter {
    /// Whether [`WtAdapter::decode`] can take `data`: every line it completes is one the
    /// parser accepts.
    pub fn accepts(&self, data: &[u8]) -> (r: bool)
        requires
            self.wf(),
        ensures
            r == decode_wt_ok(self.line@, data@),
    {
        let mut l: Vec<u8> = Vec::new();
        crate::text::append_bytes(&mut l, self.line.as_slice());
        assert(l@ =~= self.line@);
        let mut ll: usize = self.line_len;
        let n = data.len();
        let mut i: usize = 0;
        assert(data@.skip(0) =~= data@);
        while i < n
            invariant
                n == data@.len(),
                i <= n,
                ll == wire_len(l@),
                ll <= LINE_CAP,
                decode_wt_ok(self.line@, data@) == decode_wt_ok(l@, data@.skip(i as int)),
            decreases n - i,
        {
            let b = data[i];
            let ghost rest = data@.skip(i as int);
            assert(rest[0] == b);
            assert(rest.skip(1) =~= data@.skip(i + 1));
            if b == 10 {
                if !line_ok(l.as_slice()) {
                    return false;
                }
                l.clear();
                ll = 0;
                assert(l@ =~= Seq::<u8>::empty());
            } else if b != 13 {
                let w: usize = if b < 128 {
                    1
                } else {
                    2
                };
                if ll + w > LINE_CAP {
                    l.clear();
                    ll = 0;
                    assert(l@ =~= Seq::<u8>::empty());
                } else {
                    let ghost old_l = l@;
                    l.push(b);
                    proof {
                        assert(l@.drop_last() =~= old_l);
                    }
                    ll = ll + w;
                }
            }
            i = i + 1;
        }
        true
    }
}

} // verus!
