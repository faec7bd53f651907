//! BigFred adapter: WiThrottle drive traffic plus handset pairing.

use crate::adapter::{wb_append, WireBuf};
use crate::command::{loco_wire, ClientCommand, LocoId};
use crate::events::{events_view, EventModel, ServerEvent};
use crate::model::throttle_ch;
use crate::text::{copy_range, fit_wire, is_at, matches_at, wire_text};
use crate::withrottle::adapter::{decode_wt, decode_wt_ok, push_line_spec, wt_cmd_ok, wt_line, WtAdapter};
use crate::withrottle::protocol::{mkind_spec, mta_spec, two_digit};
use vstd::prelude::*;

verus! {

pub const PAIRING_SENTINEL_NAME: &'static str = "Pair with BigFred";

pub const PAIRING_SENTINEL_ADDR: u16 = 3;

pub const PAIRING_CODE_LEN: usize = 6;

/// Ticks without a result before pairing fails (15 s at the 250 ms session tick).
pub const PAIRING_TIMEOUT_TICKS: u8 = 60;

/// Bytes of [`PAIRING_SENTINEL_NAME`].
pub open spec fn sentinel_name() -> Seq<u8> {
    seq![80u8, 97, 105, 114, 32, 119, 105, 116, 104, 32, 66, 105, 103, 70, 114, 101, 100]
}

/// `Paired as `.
pub open spec fn paired_prefix() -> Seq<u8> {
    seq![80u8, 97, 105, 114, 101, 100, 32, 97, 115, 32]
}

fn sentinel_name_bytes() -> (r: Vec<u8>)
    ensures
        r@ == sentinel_name(),
{
    let r: Vec<u8> = vec![80u8, 97, 105, 114, 32, 119, 105, 116, 104, 32, 66, 105, 103, 70, 114, 101, 100];
    assert(r@ =~= sentinel_name());
    r
}

fn paired_prefix_bytes() -> (r: Vec<u8>)
    ensures
        r@ == paired_prefix(),
{
    let r: Vec<u8> = vec![80u8, 97, 105, 114, 101, 100, 32, 97, 115, 32];
    assert(r@ =~= paired_prefix());
    r
}

/// Pairing progress.
#[derive(Debug, PartialEq, Eq)]
pub enum PairState {
    Idle,
    /// Keying in the code: step `2k` presses digit `k`, step `2k + 1` releases it.
    Sending { code: Vec<u8>, step: u8 },
    AwaitingResult { ticks: u8 },
    ReleaseSentinel,
}

/// BigFred composes the WiThrottle adapter and owns the pairing state.
pub struct BigFredAdapter {
    pub inner: WtAdapter,
    pub pairing: PairState,
}

pub open spec fn is_code(code: Seq<u8>) -> bool {
    code.len() == PAIRING_CODE_LEN && forall|i: int| 0 <= i < code.len() ==> 48 <= #[trigger] code[i] <= 57
}

/// The message with every leading `Paired as ` removed.
pub open spec fn strip_paired(m: Seq<u8>) -> Seq<u8>
    decreases m.len(),
{
    if is_at(m, paired_prefix(), 0) {
        strip_paired(m.skip(10))
    } else {
        m
    }
}

/// An event as BigFred reports it: the sentinel roster entry also asks for pairing, and a
/// `Paired as {user}` message also reports success for that user.
pub open spec fn bf_one(e: EventModel) -> Seq<EventModel> {
    match e {
        EventModel::RosterEntry { name, .. } => if name == sentinel_name() {
            seq![e, EventModel::PairingRequired]
        } else {
            seq![e]
        },
        EventModel::Message(m) => if is_at(m, paired_prefix(), 0) {
            seq![e, EventModel::PairingSucceeded(fit_wire(strip_paired(m), 32))]
        } else {
            seq![e]
        },
        _ => seq![e],
    }
}

pub open spec fn bf_map(ev: Seq<EventModel>) -> Seq<EventModel>
    decreases ev.len(),
{
    if ev.len() == 0 {
        Seq::empty()
    } else {
        bf_map(ev.drop_last()) + bf_one(ev.last())
    }
}

pub open spec fn is_paired_msg(e: EventModel) -> bool {
    e matches EventModel::Message(m) && is_at(m, paired_prefix(), 0)
}

pub open spec fn any_paired(ev: Seq<EventModel>) -> bool {
    exists|i: int| 0 <= i < ev.len() && is_paired_msg(#[trigger] ev[i])
}

pub open spec fn sentinel_loco() -> LocoId {
    LocoId { addr: PAIRING_SENTINEL_ADDR, long: false }
}

impl BigFredAdapter {
    pub open spec fn wf(&self) -> bool {
        &&& self.inner.wf()
        &&& match self.pairing {
            PairState::Sending { code, step } => code@.len() == PAIRING_CODE_LEN && step < 12,
            _ => true,
        }
    }

    pub fn new(name: &str, id: &str, hb_period: u32, send_leading_crlf: bool, dead_man_switch_on: bool) -> (a: BigFredAdapter)
        ensures
            a.wf(),
            a.pairing == PairState::Idle,
            a.inner.line@.len() == 0,
            a.inner.heartbeat_period == (if hb_period < 1 { 1 } else { hb_period }),
            a.inner.send_leading_crlf == send_leading_crlf,
            a.inner.dead_man_switch_on == dead_man_switch_on,
            !a.inner.leading_crlf,
    {
        BigFredAdapter {
            inner: WtAdapter::new(name, id, hb_period, send_leading_crlf, dead_man_switch_on),
            pairing: PairState::Idle,
        }
    }

    pub fn on_connect(&mut self, out: &mut WireBuf, events: &mut Vec<ServerEvent>)
        ensures
            ({
                let a = old(self).inner;
                let (s1, o1) = push_line_spec(a.send_leading_crlf, a.leading_crlf, old(out)@, crate::withrottle::protocol::cp(crate::withrottle::protocol::cp(Seq::empty(), seq![72u8, 85u8]), a.id@));
                let (s2, o2) = push_line_spec(a.send_leading_crlf, s1, o1, crate::withrottle::protocol::cp(crate::withrottle::protocol::cp(Seq::empty(), seq![78u8]), a.name@));
                let (s3, o3) = push_line_spec(a.send_leading_crlf, s2, o2, seq![42u8, if a.dead_man_switch_on { 43u8 } else { 45u8 }]);
                final(self).inner.leading_crlf == s3 && final(out)@ == o3
            }),
            final(self).pairing == old(self).pairing,
            final(self).inner.line == old(self).inner.line,
            final(self).inner.line_len == old(self).inner.line_len,
            final(self).inner.heartbeat_period == old(self).inner.heartbeat_period,
            final(self).inner.keeps_session(old(self).inner),
            final(events)@ == old(events)@,
    {
        self.inner.on_connect(out, events);
    }

    pub fn on_disconnect(&mut self, out: &mut WireBuf)
        ensures
            ({
                let (s, o) = push_line_spec(old(self).inner.send_leading_crlf, old(self).inner.leading_crlf, old(out)@, seq![81u8]);
                final(self).inner.leading_crlf == s && final(out)@ == o
            }),
            final(self).pairing == old(self).pairing,
            final(self).inner.line == old(self).inner.line,
            final(self).inner.line_len == old(self).inner.line_len,
            final(self).inner.heartbeat_period == old(self).inner.heartbeat_period,
            final(self).inner.keeps_session(old(self).inner),
    {
        self.inner.on_disconnect(out);
    }

    pub fn on_unpair(&mut self, out: &mut WireBuf)
        ensures
            ({
                let (s, o) = push_line_spec(old(self).inner.send_leading_crlf, old(self).inner.leading_crlf, old(out)@, seq![81u8]);
                final(self).inner.leading_crlf == s && final(out)@ == o
            }),
            final(self).pairing == old(self).pairing,
            final(self).inner.line == old(self).inner.line,
            final(self).inner.line_len == old(self).inner.line_len,
            final(self).inner.heartbeat_period == old(self).inner.heartbeat_period,
            final(self).inner.keeps_session(old(self).inner),
    {
        self.inner.on_unpair(out);
    }

    pub fn on_tick(&mut self, out: &mut WireBuf) -> (r: bool)
        ensures
            r,
            ({
                let (s, o) = push_line_spec(old(self).inner.send_leading_crlf, old(self).inner.leading_crlf, old(out)@, seq![42u8]);
                final(self).inner.leading_crlf == s && final(out)@ == o
            }),
            final(self).pairing == old(self).pairing,
            final(self).inner.line == old(self).inner.line,
            final(self).inner.line_len == old(self).inner.line_len,
            final(self).inner.heartbeat_period == old(self).inner.heartbeat_period,
            final(self).inner.keeps_session(old(self).inner),
    {
        self.inner.on_tick(out)
    }

    pub fn tick_period_s(&self) -> (r: u32)
        ensures
            r == self.inner.heartbeat_period,
    {
        self.inner.heartbeat_period
    }

    pub fn set_heartbeat_period(&mut self, seconds: u32)
        ensures
            final(self).inner.heartbeat_period == (if seconds < 1 { 1 } else { seconds }),
            final(self).pairing == old(self).pairing,
            final(self).inner.line == old(self).inner.line,
            final(self).inner.line_len == old(self).inner.line_len,
            final(self).inner.leading_crlf == old(self).inner.leading_crlf,
    {
        self.inner.heartbeat_period = if seconds < 1 {
            1
        } else {
            seconds
        };
    }

    /// `Pair` with a six-digit code acquires the sentinel loco and starts keying in the
    /// code; any other code fails at once without wire output. Other commands are plain
    /// WiThrottle.
    pub fn encode(&mut self, cmd: &ClientCommand, out: &mut WireBuf, events: &mut Vec<ServerEvent>)
        requires
            old(self).wf(),
            wt_cmd_ok(*cmd),
        ensures
            final(self).wf(),
            match *cmd {
                ClientCommand::Pair { code } => if is_code(code@) {
                    let line = mkind_spec(throttle_ch(0), 43, loco_wire(sentinel_loco()), sentinel_name());
                    let (s, o) = push_line_spec(old(self).inner.send_leading_crlf, old(self).inner.leading_crlf, old(out)@, line);
                    &&& final(self).inner.leading_crlf == s
                    &&& final(out)@ == o
                    &&& final(self).pairing matches PairState::Sending { code: c, step } && c@ == code@ && step == 0
                    &&& final(events)@ == old(events)@
                } else {
                    &&& final(out)@ == old(out)@
                    &&& final(self).pairing == old(self).pairing
                    &&& events_view(final(events)@) == events_view(old(events)@).push(EventModel::PairingFailed)
                },
                _ => {
                    let (s, o) = push_line_spec(old(self).inner.send_leading_crlf, old(self).inner.leading_crlf, old(out)@, wt_line(*cmd).unwrap());
                    &&& final(self).inner.leading_crlf == s
                    &&& final(out)@ == o
                    &&& final(self).pairing == old(self).pairing
                    &&& final(events)@ == old(events)@
                },
            },
            final(self).inner.line == old(self).inner.line,
            final(self).inner.line_len == old(self).inner.line_len,
            final(self).inner.heartbeat_period == old(self).inner.heartbeat_period,
    {
        match cmd {
            ClientCommand::Pair { code } => {
                let mut ok = code.len() == PAIRING_CODE_LEN;
                let mut i: usize = 0;
                while ok && i < code.len()
                    invariant
                        i <= code@.len(),
                        ok ==> forall|j: int| 0 <= j < i ==> 48 <= #[trigger] code@[j] <= 57,
                        ok ==> code@.len() == PAIRING_CODE_LEN,
                        !ok ==> !is_code(code@),
                    decreases code@.len() - i,
                {
                    if code[i] < 48 || code[i] > 57 {
                        ok = false;
                    }
                    i = i + 1;
                }
                if !ok {
                    let ghost before = events@;
                    events.push(ServerEvent::PairingFailed);
                    assert(events_view(events@) =~= events_view(before).push(EventModel::PairingFailed));
                    return;
                }
                self.pairing = PairState::Sending { code: copy_range(code.as_slice(), 0, code.len()), step: 0 };
                let name = sentinel_name_bytes();
                let add = ClientCommand::AddLoco {
                    throttle: 0,
                    loco: LocoId { addr: PAIRING_SENTINEL_ADDR, long: false },
                    name,
                };
                self.inner.encode(&add, out, events);
            },
            _ => {
                self.inner.encode(cmd, out, events);
            },
        }
    }
}

} // verus!

verus! {

fn strip_paired_exec(m: &[u8]) -> (r: Vec<u8>)
    ensures
        r@ == strip_paired(m@),
{
    let p = paired_prefix_bytes();
    let mut start: usize = 0;
    assert(m@.skip(0) =~= m@);
    while start <= m.len() && matches_at(m, p.as_slice(), start)
        invariant
            p@ == paired_prefix(),
            start <= m@.len(),
            strip_paired(m@) == strip_paired(m@.skip(start as int)),
        decreases m@.len() - start,
    {
        assert(is_at(m@.skip(start as int), paired_prefix(), 0)) by {
            assert(m@.skip(start as int).subrange(0, 10) =~= m@.subrange(start as int, start + 10));
        }
        assert(m@.skip(start as int).skip(10) =~= m@.skip(start + 10));
        start = start + 10;
    }
    assert(!is_at(m@.skip(start as int), paired_prefix(), 0)) by {
        if is_at(m@.skip(start as int), paired_prefix(), 0) {
            assert(m@.skip(start as int).subrange(0, 10) =~= m@.subrange(start as int, start + 10));
        }
    }
    let r = copy_range(m, start, m.len());
    assert(r@ =~= m@.skip(start as int));
    r
}

impl BigFredAdapter {
    /// WiThrottle decoding, with the sentinel roster entry and the `Paired as` message
    /// turned into pairing events; a pairing message also schedules the sentinel release.
    pub fn decode(&mut self, data: &[u8], events: &mut Vec<ServerEvent>)
        requires
            old(self).wf(),
            decode_wt_ok(old(self).inner.line@, data@),
        ensures
            final(self).wf(),
            ({
                let (l, p, ev) = decode_wt(old(self).inner.line@, old(self).inner.heartbeat_period, data@);
                &&& final(self).inner.line@ == l
                &&& final(self).inner.heartbeat_period == p
                &&& events_view(final(events)@) == events_view(old(events)@) + bf_map(ev)
                &&& (if any_paired(ev) { final(self).pairing == PairState::ReleaseSentinel } else { final(self).pairing == old(self).pairing })
            }),
            final(self).inner.leading_crlf == old(self).inner.leading_crlf,
            final(self).inner.send_leading_crlf == old(self).inner.send_leading_crlf,
    {
        let mut raw: Vec<ServerEvent> = Vec::new();
        self.inner.decode(data, &mut raw);
        let ghost all = events_view(raw@);
        assert(all =~= events_view(raw@));
        let ghost ev0 = events_view(events@);
        let ghost pair0 = self.pairing;
        let sentinel = sentinel_name_bytes();
        let prefix = paired_prefix_bytes();
        let ghost mut k: int = 0;
        let ghost inner1 = self.inner;
        while raw.len() > 0
            invariant
                0 <= k <= all.len(),
                events_view(raw@) == all.skip(k),
                sentinel@ == sentinel_name(),
                prefix@ == paired_prefix(),
                events_view(events@) == ev0 + bf_map(all.take(k)),
                self.wf(),
                if any_paired(all.take(k)) { self.pairing == PairState::ReleaseSentinel } else { self.pairing == pair0 },
                self.inner == inner1,
            decreases raw@.len(),
        {
            let ghost raw_before = raw@;
            assert(events_view(raw_before).len() == raw_before.len());
            assert(k < all.len());
            let e = raw.remove(0);
            let ghost em = e@;
            assert(events_view(raw_before)[0] == raw_before[0]@);
            assert(all.skip(k)[0] == em);
            assert(all.take(k + 1).drop_last() =~= all.take(k));
            assert(all.take(k + 1).last() == em);
            let ghost before = events_view(events@);
            let mut extra: Option<ServerEvent> = None;
            match &e {
                ServerEvent::RosterEntry { name, .. } => {
                    if crate::text::bytes_eq(name.as_slice(), sentinel.as_slice()) {
                        extra = Some(ServerEvent::PairingRequired);
                    }
                },
                ServerEvent::Message(m) => {
                    if matches_at(m.as_slice(), prefix.as_slice(), 0) {
                        self.pairing = PairState::ReleaseSentinel;
                        let rest = strip_paired_exec(m.as_slice());
                        let user = wire_text(rest.as_slice(), 0, rest.len(), 32);
                        assert(rest@.subrange(0, rest@.len() as int) =~= rest@);
                        extra = Some(ServerEvent::PairingSucceeded(user));
                    }
                },
                _ => {},
            }
            events.push(e);
            match extra {
                Some(x) => {
                    events.push(x);
                },
                None => {},
            }
            proof {
                assert(events_view(events@) =~= before + bf_one(em));
                assert(events_view(events@) =~= ev0 + bf_map(all.take(k + 1)));
                assert(any_paired(all.take(k + 1)) == (any_paired(all.take(k)) || is_paired_msg(em))) by {
                    if is_paired_msg(em) {
                        assert(all.take(k + 1)[k] == em);
                    }
                    if any_paired(all.take(k)) {
                        let i = choose|i: int| 0 <= i < all.take(k).len() && is_paired_msg(#[trigger] all.take(k)[i]);
                        assert(all.take(k + 1)[i] == all.take(k)[i]);
                    }
                    if any_paired(all.take(k + 1)) {
                        let i = choose|i: int| 0 <= i < all.take(k + 1).len() && is_paired_msg(#[trigger] all.take(k + 1)[i]);
                        if i < k {
                            assert(all.take(k)[i] == all.take(k + 1)[i]);
                        }
                    }
                }
                assert(events_view(raw@) =~= events_view(raw_before).skip(1));
                assert(all.skip(k).skip(1) =~= all.skip(k + 1));
                k = k + 1;
                assert(events_view(raw@) =~= all.skip(k));
            }
        }
        assert(all.take(k) =~= all);
    }
}

} // verus!

verus! {

/// The key line for pairing step `step` of `code`: press (even step) or release digit
/// `step / 2` as a momentary function on throttle 0.
pub open spec fn key_line(code: Seq<u8>, step: u8) -> Seq<u8> {
    let c = code[(step / 2) as int];
    let digit: u8 = if c < 48 { 0 } else { (c - 48) as u8 };
    mta_spec(throttle_ch(0), seq![42u8], seq![70u8, if step % 2 == 0 { 49u8 } else { 48u8 }] + two_digit(digit))
}

impl BigFredAdapter {
    /// Advances pairing by one session tick: one key edge while keying in the code, a
    /// timeout count while awaiting the result, or the sentinel release after success.
    /// Returns whether `out` holds anything.
    pub fn poll(&mut self, out: &mut WireBuf, events: &mut Vec<ServerEvent>) -> (r: bool)
        requires
            old(self).wf(),
        ensures
            final(self).wf(),
            r == (final(out)@.len() > 0),
            final(self).inner.line == old(self).inner.line,
            final(self).inner.line_len == old(self).inner.line_len,
            final(self).inner.heartbeat_period == old(self).inner.heartbeat_period,
            match old(self).pairing {
                PairState::Sending { code, step } => {
                    let (s, o) = push_line_spec(old(self).inner.send_leading_crlf, old(self).inner.leading_crlf, old(out)@, key_line(code@, step));
                    &&& final(self).inner.leading_crlf == s
                    &&& final(out)@ == o
                    &&& final(events)@ == old(events)@
                    &&& if step + 1 == 12 {
                        final(self).pairing == PairState::AwaitingResult { ticks: 0 }
                    } else {
                        final(self).pairing matches PairState::Sending { code: c2, step: s2 } && c2@ == code@ && s2 == step + 1
                    }
                },
                PairState::AwaitingResult { ticks } => {
                    let t2: u8 = if ticks == 255 { 255 } else { (ticks + 1) as u8 };
                    &&& final(out)@ == old(out)@
                    &&& final(self).inner.leading_crlf == old(self).inner.leading_crlf
                    &&& if t2 >= PAIRING_TIMEOUT_TICKS {
                        &&& final(self).pairing == PairState::Idle
                        &&& events_view(final(events)@) == events_view(old(events)@).push(EventModel::PairingFailed)
                    } else {
                        &&& final(self).pairing == PairState::AwaitingResult { ticks: t2 }
                        &&& final(events)@ == old(events)@
                    }
                },
                PairState::ReleaseSentinel => {
                    let (s, o) = push_line_spec(old(self).inner.send_leading_crlf, old(self).inner.leading_crlf, old(out)@, mkind_spec(throttle_ch(0), 45, seq![42u8], seq![114u8]));
                    &&& final(self).inner.leading_crlf == s
                    &&& final(out)@ == o
                    &&& final(self).pairing == PairState::Idle
                    &&& final(events)@ == old(events)@
                },
                PairState::Idle => {
                    &&& final(out)@ == old(out)@
                    &&& final(self).pairing == PairState::Idle
                    &&& final(self).inner.leading_crlf == old(self).inner.leading_crlf
                    &&& final(events)@ == old(events)@
                },
            },
    {
        match &self.pairing {
            PairState::Sending { code, step } => {
                let st = *step;
                let k: usize = (st / 2) as usize;
                let c = code[k];
                let digit: u8 = if c < 48 {
                    0
                } else {
                    c - 48
                };
                let on = st % 2 == 0;
                let kept = copy_range(code.as_slice(), 0, code.len());
                assert(kept@ =~= code@);
                self.inner.encode_function(0, digit, on, false, out);
                if st + 1 == 12 {
                    self.pairing = PairState::AwaitingResult { ticks: 0 };
                } else {
                    self.pairing = PairState::Sending { code: kept, step: st + 1 };
                }
            },
            PairState::AwaitingResult { ticks } => {
                let t2: u8 = if *ticks == 255 {
                    255
                } else {
                    *ticks + 1
                };
                if t2 >= PAIRING_TIMEOUT_TICKS {
                    self.pairing = PairState::Idle;
                    let ghost before = events@;
                    events.push(ServerEvent::PairingFailed);
                    assert(events_view(events@) =~= events_view(before).push(EventModel::PairingFailed));
                } else {
                    self.pairing = PairState::AwaitingResult { ticks: t2 };
                }
            },
            PairState::ReleaseSentinel => {
                self.inner.encode(&ClientCommand::ReleaseThrottle { throttle: 0 }, out, events);
                self.pairing = PairState::Idle;
            },
            PairState::Idle => {},
        }
        out.len() > 0
    }
}

} // verus!
