//! Protocol adapter dispatch (WiThrottle / Z21 / BigFred) and the outgoing wire buffer.

use crate::events::{events_view, ServerEvent};
use vstd::prelude::*;

verus! {

/// Capacity of the outgoing buffer (the largest encoded burst: a Z21 E-stop for sixteen locos).
pub const WIRE_BUF_CAP: usize = 512;

/// Outgoing bytes, at most [`WIRE_BUF_CAP`].
pub type WireBuf = Vec<u8>;

/// Appending to the outgoing buffer is all-or-nothing: data that would overflow it is dropped.
pub open spec fn wb_append(out: Seq<u8>, data: Seq<u8>) -> Seq<u8> {
    if out.len() + data.len() <= WIRE_BUF_CAP {
        out + data
    } else {
        out
    }
}

pub fn wire_extend(out: &mut WireBuf, data: &[u8])
    ensures
        final(out)@ == wb_append(old(out)@, data@),
{
    if out.len() <= WIRE_BUF_CAP && data.len() <= WIRE_BUF_CAP - out.len() {
        crate::text::append_bytes(out, data);
    }
}

pub fn wire_push(out: &mut WireBuf, b: u8)
    ensures
        final(out)@ == wb_append(old(out)@, seq![b]),
{
    if out.len() < WIRE_BUF_CAP {
        out.push(b);
        assert(out@ =~= old(out)@ + seq![b]);
    }
}

} // verus!

verus! {

use crate::bigfred::adapter::{bf_map, BigFredAdapter};
use crate::caps::{bigfred_caps, withrottle_caps, z21_caps, ProtocolCaps};
use crate::command::ClientCommand;
use crate::events::EventModel;
use crate::withrottle::adapter::{decode_wt, decode_wt_ok, wt_cmd_ok, wt_handshake, wt_send, WtAdapter};
use crate::z21::adapter::{connect_fold, decode_frames, encode_ok, encode_spec, frame_spec, Z21Adapter};

/// The live protocol session.
pub enum Adapter {
    Wt(WtAdapter),
    Z21(Z21Adapter),
    BigFred(BigFredAdapter),
}

impl Adapter {
    pub open spec fn wf(&self) -> bool {
        match self {
            Adapter::Wt(a) => a.wf(),
            Adapter::Z21(a) => a.wf(),
            Adapter::BigFred(a) => a.wf(),
        }
    }

    pub open spec fn same_kind(&self, other: &Adapter) -> bool {
        (self is Wt && other is Wt) || (self is Z21 && other is Z21) || (self is BigFred && other is BigFred)
    }

    /// Commands the live adapter accepts.
    pub open spec fn cmd_ok(&self, cmd: ClientCommand) -> bool {
        match self {
            Adapter::Wt(_) => wt_cmd_ok(cmd),
            Adapter::Z21(a) => encode_ok(a.locos@, cmd),
            Adapter::BigFred(_) => wt_cmd_ok(cmd),
        }
    }

    /// Received bytes the live adapter accepts.
    pub open spec fn data_ok(&self, data: Seq<u8>) -> bool {
        match self {
            Adapter::Wt(a) => decode_wt_ok(a.line@, data),
            Adapter::Z21(_) => true,
            Adapter::BigFred(a) => decode_wt_ok(a.inner.line@, data),
        }
    }

    /// Bytes to send right after the transport connects.
    pub fn on_connect(&mut self, out: &mut WireBuf, events: &mut Vec<ServerEvent>)
        requires
            old(self).wf(),
        ensures
            final(self).wf(),
            final(self).same_kind(old(self)),
            final(events)@ == old(events)@,
            match (*old(self), *final(self)) {
                (Adapter::Wt(a), Adapter::Wt(b)) => (b.leading_crlf, final(out)@) == wt_handshake(a, old(out)@)
                    && b.keeps_session(a),
                (Adapter::Z21(a), Adapter::Z21(b)) => final(out)@ == connect_fold(a.locos@, old(out)@) && b.locos == a.locos,
                (Adapter::BigFred(a), Adapter::BigFred(b)) => (b.inner.leading_crlf, final(out)@) == wt_handshake(a.inner, old(out)@)
                    && b.inner.keeps_session(a.inner) && b.pairing == a.pairing,
                _ => false,
            },
    {
        match self {
            Adapter::Wt(a) => a.on_connect(out, events),
            Adapter::Z21(a) => a.on_connect(out, events),
            Adapter::BigFred(a) => a.on_connect(out, events),
        }
    }

    /// Bytes sent when leaving a live session without unpairing (nothing for Z21).
    pub fn on_disconnect(&mut self, out: &mut WireBuf)
        requires
            old(self).wf(),
        ensures
            final(self).wf(),
            final(self).same_kind(old(self)),
            (*old(self)) is Z21 ==> final(out)@ == old(out)@,
            match (*old(self), *final(self)) {
                (Adapter::Wt(a), Adapter::Wt(b)) => (b.leading_crlf, final(out)@) == wt_send(a, old(out)@, seq![81u8])
                    && b.keeps_session(a),
                (Adapter::Z21(a), Adapter::Z21(b)) => b.locos == a.locos,
                (Adapter::BigFred(a), Adapter::BigFred(b)) => (b.inner.leading_crlf, final(out)@) == wt_send(a.inner, old(out)@, seq![81u8])
                    && b.inner.keeps_session(a.inner) && b.pairing == a.pairing,
                _ => false,
            },
    {
        match self {
            Adapter::Wt(a) => a.on_disconnect(out),
            Adapter::BigFred(a) => a.on_disconnect(out),
            Adapter::Z21(_) => {},
        }
    }

    /// Bytes sent when the operator explicitly disconnects (nothing for Z21).
    pub fn on_unpair(&mut self, out: &mut WireBuf)
        requires
            old(self).wf(),
        ensures
            final(self).wf(),
            final(self).same_kind(old(self)),
            (*old(self)) is Z21 ==> final(out)@ == old(out)@,
            match (*old(self), *final(self)) {
                (Adapter::Wt(a), Adapter::Wt(b)) => (b.leading_crlf, final(out)@) == wt_send(a, old(out)@, seq![81u8])
                    && b.keeps_session(a),
                (Adapter::Z21(a), Adapter::Z21(b)) => b.locos == a.locos,
                (Adapter::BigFred(a), Adapter::BigFred(b)) => (b.inner.leading_crlf, final(out)@) == wt_send(a.inner, old(out)@, seq![81u8])
                    && b.inner.keeps_session(a.inner) && b.pairing == a.pairing,
                _ => false,
            },
    {
        match self {
            Adapter::Wt(a) => a.on_unpair(out),
            Adapter::BigFred(a) => a.on_unpair(out),
            Adapter::Z21(_) => {},
        }
    }

    /// Encodes one command; Z21 also reports address changes locally.
    pub fn encode(&mut self, cmd: &ClientCommand, out: &mut WireBuf, events: &mut Vec<ServerEvent>)
        requires
            old(self).wf(),
            old(self).cmd_ok(*cmd),
        ensures
            final(self).wf(),
            final(self).same_kind(old(self)),
            match (*old(self), *final(self)) {
                (Adapter::Z21(a), Adapter::Z21(b)) => {
                    let (ss, o, ev) = encode_spec(a.locos@, *cmd, old(out)@);
                    b.locos@ == ss && final(out)@ == o && events_view(final(events)@) == events_view(old(events)@) + ev
                },
                _ => true,
            },
    {
        match self {
            Adapter::Wt(a) => a.encode(cmd, out, events),
            Adapter::Z21(a) => a.encode(cmd, out, events),
            Adapter::BigFred(a) => a.encode(cmd, out, events),
        }
    }

    /// Feeds received bytes; decoded events are appended.
    pub fn decode(&mut self, data: &[u8], events: &mut Vec<ServerEvent>)
        requires
            old(self).wf(),
            old(self).data_ok(data@),
        ensures
            final(self).wf(),
            final(self).same_kind(old(self)),
            match (*old(self), *final(self)) {
                (Adapter::Wt(a), Adapter::Wt(b)) => {
                    let (l, p, ev) = decode_wt(a.line@, a.heartbeat_period, data@);
                    b.line@ == l && b.heartbeat_period == p && events_view(final(events)@) == events_view(old(events)@) + ev
                },
                (Adapter::Z21(a), Adapter::Z21(b)) => {
                    let (ss, ev) = decode_frames(a.locos@, data@);
                    b.locos@ == ss && events_view(final(events)@) == events_view(old(events)@) + ev
                },
                (Adapter::BigFred(a), Adapter::BigFred(b)) => {
                    let (l, p, ev) = decode_wt(a.inner.line@, a.inner.heartbeat_period, data@);
                    b.inner.line@ == l && b.inner.heartbeat_period == p && events_view(final(events)@) == events_view(old(events)@) + bf_map(ev)
                },
                _ => false,
            },
    {
        match self {
            Adapter::Wt(a) => a.decode(data, events),
            Adapter::Z21(a) => a.decode(data, events),
            Adapter::BigFred(a) => a.decode(data, events),
        }
    }

    /// Whether [`Adapter::decode`] can take `data`: its `requires` on the bytes, tested.
    pub fn accepts(&self, data: &[u8]) -> (r: bool)
        requires
            self.wf(),
        ensures
            r == self.data_ok(data@),
    {
        match self {
            Adapter::Wt(a) => a.accepts(data),
            Adapter::Z21(_) => true,
            Adapter::BigFred(a) => a.inner.accepts(data),
        }
    }

    /// Advances protocol state on the session cadence (BigFred pairing only).
    pub fn poll(&mut self, out: &mut WireBuf, events: &mut Vec<ServerEvent>) -> (r: bool)
        requires
            old(self).wf(),
        ensures
            final(self).wf(),
            final(self).same_kind(old(self)),
            !((*old(self)) is BigFred) ==> !r && final(out)@ == old(out)@ && final(events)@ == old(events)@,
            (*old(self)) is BigFred ==> r == (final(out)@.len() > 0),
    {
        match self {
            Adapter::BigFred(a) => a.poll(out, events),
            Adapter::Wt(_) | Adapter::Z21(_) => false,
        }
    }

    /// Periodic keep-alive; always fills `out`.
    pub fn on_tick(&mut self, out: &mut WireBuf) -> (r: bool)
        requires
            old(self).wf(),
        ensures
            final(self).wf(),
            final(self).same_kind(old(self)),
            r,
            match (*old(self), *final(self)) {
                (Adapter::Wt(a), Adapter::Wt(b)) => (b.leading_crlf, final(out)@) == wt_send(a, old(out)@, seq![42u8])
                    && b.keeps_session(a),
                (Adapter::Z21(a), Adapter::Z21(b)) => final(out)@ == frame_spec(old(out)@, 0x0085, Seq::empty()) && b.locos == a.locos,
                (Adapter::BigFred(a), Adapter::BigFred(b)) => (b.inner.leading_crlf, final(out)@) == wt_send(a.inner, old(out)@, seq![42u8])
                    && b.inner.keeps_session(a.inner) && b.pairing == a.pairing,
                _ => false,
            },
    {
        match self {
            Adapter::Wt(a) => a.on_tick(out),
            Adapter::Z21(a) => a.on_tick(out),
            Adapter::BigFred(a) => a.on_tick(out),
        }
    }

    /// Seconds between keep-alives: the WiThrottle heartbeat period, 30 for Z21.
    pub fn tick_period_s(&self) -> (r: u32)
        ensures
            r == (match self {
                Adapter::Wt(a) => a.heartbeat_period,
                Adapter::Z21(_) => 30,
                Adapter::BigFred(a) => a.inner.heartbeat_period,
            }),
    {
        match self {
            Adapter::Wt(a) => a.heartbeat_period,
            Adapter::Z21(_) => 30,
            Adapter::BigFred(a) => a.tick_period_s(),
        }
    }

    /// Sets the heartbeat period (at least 1); Z21 has none.
    pub fn set_heartbeat_period(&mut self, seconds: u32)
        requires
            old(self).wf(),
        ensures
            final(self).wf(),
            final(self).same_kind(old(self)),
            !((*old(self)) is Z21) ==> final(self).tick_period_s_spec() == (if seconds < 1 { 1 } else { seconds }),
            (*old(self)) is Z21 ==> final(self).tick_period_s_spec() == 30,
    {
        match self {
            Adapter::Wt(a) => {
                a.heartbeat_period = if seconds < 1 {
                    1
                } else {
                    seconds
                };
            },
            Adapter::BigFred(a) => a.set_heartbeat_period(seconds),
            Adapter::Z21(_) => {},
        }
    }

    pub open spec fn tick_period_s_spec(&self) -> u32 {
        match self {
            Adapter::Wt(a) => a.heartbeat_period,
            Adapter::Z21(_) => 30,
            Adapter::BigFred(a) => a.inner.heartbeat_period,
        }
    }

    /// Capabilities of the live protocol.
    pub fn caps(&self) -> (c: ProtocolCaps)
        ensures
            c == (match self {
                Adapter::Wt(_) => withrottle_caps(),
                Adapter::Z21(_) => z21_caps(),
                Adapter::BigFred(_) => bigfred_caps(),
            }),
    {
        match self {
            Adapter::Wt(_) => crate::caps::withrottle_info().caps,
            Adapter::Z21(_) => crate::caps::z21_info().caps,
            Adapter::BigFred(_) => crate::caps::bigfred_info().caps,
        }
    }
}

/// Every adapter operation keeps the session well formed, and in a well-formed session the
/// keep-alive period is at least one second (thirty for Z21): the heartbeat is never zero.
pub proof fn law_tick_period_positive(a: Adapter)
    requires
        a.wf(),
    ensures
        a.tick_period_s_spec() >= 1,
        a is Z21 ==> a.tick_period_s_spec() == 30,
{
}

} // verus!
