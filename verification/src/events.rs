//! Events decoded from the command station.

use crate::model::{Direction, LocoAddr, LongText, ShortText, TrackPower};
use vstd::prelude::*;

verus! {

#[derive(Debug, Clone, PartialEq, Eq)]
pub enum ServerEvent {
    HeartbeatConfig { seconds: u32 },
    Version(ShortText),
    ServerType(ShortText),
    ServerDescription(LongText),
    Message(LongText),
    Alert(LongText),
    WebPort(u16),
    TrackPower(TrackPower),
    Speed { throttle: char, speed: u8 },
    DirectionLead { throttle: char, dir: Direction },
    DirectionLoco { throttle: char, addr: LocoAddr, dir: Direction },
    FunctionState { throttle: char, func: u8, on: bool },
    /// One label per function number (empty where the station sent none).
    RosterFunctionLabels { throttle: char, labels: Vec<ShortText> },
    RosterEntriesCount(u16),
    RosterEntry { index: u16, name: ShortText, address: i32, length: char },
    AddressAdded { throttle: char, addr: LocoAddr, entry: LongText },
    AddressRemoved { throttle: char, addr: LocoAddr, entry: LongText },
    StealNeeded { throttle: char, addr: LocoAddr, entry: LongText },
    /// The station offers handset pairing (BigFred sentinel roster entry).
    PairingRequired,
    /// Pairing accepted; carries the user name the station assigned.
    PairingSucceeded(ShortText),
    /// Pairing refused, timed out, or the code was malformed.
    PairingFailed,
    Unknown(LongText),
}

/// Abstract form of a [`ServerEvent`]: texts as byte sequences.
pub enum EventModel {
    HeartbeatConfig { seconds: u32 },
    Version(Seq<u8>),
    ServerType(Seq<u8>),
    ServerDescription(Seq<u8>),
    Message(Seq<u8>),
    Alert(Seq<u8>),
    WebPort(u16),
    TrackPower(TrackPower),
    Speed { throttle: char, speed: u8 },
    DirectionLead { throttle: char, dir: Direction },
    DirectionLoco { throttle: char, addr: Seq<u8>, dir: Direction },
    FunctionState { throttle: char, func: u8, on: bool },
    RosterFunctionLabels { throttle: char, labels: Seq<Seq<u8>> },
    RosterEntriesCount(u16),
    RosterEntry { index: u16, name: Seq<u8>, address: i32, length: char },
    AddressAdded { throttle: char, addr: Seq<u8>, entry: Seq<u8> },
    AddressRemoved { throttle: char, addr: Seq<u8>, entry: Seq<u8> },
    StealNeeded { throttle: char, addr: Seq<u8>, entry: Seq<u8> },
    PairingRequired,
    PairingSucceeded(Seq<u8>),
    PairingFailed,
    Unknown(Seq<u8>),
}

impl View for ServerEvent {
    type V = EventModel;

    open spec fn view(&self) -> EventModel {
        match self {
            ServerEvent::HeartbeatConfig { seconds } => EventModel::HeartbeatConfig { seconds: *seconds },
            ServerEvent::Version(t) => EventModel::Version(t@),
            ServerEvent::ServerType(t) => EventModel::ServerType(t@),
            ServerEvent::ServerDescription(t) => EventModel::ServerDescription(t@),
            ServerEvent::Message(t) => EventModel::Message(t@),
            ServerEvent::Alert(t) => EventModel::Alert(t@),
            ServerEvent::WebPort(p) => EventModel::WebPort(*p),
            ServerEvent::TrackPower(p) => EventModel::TrackPower(*p),
            ServerEvent::Speed { throttle, speed } => EventModel::Speed { throttle: *throttle, speed: *speed },
            ServerEvent::DirectionLead { throttle, dir } => EventModel::DirectionLead { throttle: *throttle, dir: *dir },
            ServerEvent::DirectionLoco { throttle, addr, dir } => EventModel::DirectionLoco {
                throttle: *throttle,
                addr: addr@,
                dir: *dir,
            },
            ServerEvent::FunctionState { throttle, func, on } => EventModel::FunctionState {
                throttle: *throttle,
                func: *func,
                on: *on,
            },
            ServerEvent::RosterFunctionLabels { throttle, labels } => EventModel::RosterFunctionLabels {
                throttle: *throttle,
                labels: labels@.map_values(|l: Vec<u8>| l@),
            },
            ServerEvent::RosterEntriesCount(n) => EventModel::RosterEntriesCount(*n),
            ServerEvent::RosterEntry { index, name, address, length } => EventModel::RosterEntry {
                index: *index,
                name: name@,
                address: *address,
                length: *length,
            },
            ServerEvent::AddressAdded { throttle, addr, entry } => EventModel::AddressAdded {
                throttle: *throttle,
                addr: addr@,
                entry: entry@,
            },
            ServerEvent::AddressRemoved { throttle, addr, entry } => EventModel::AddressRemoved {
                throttle: *throttle,
                addr: addr@,
                entry: entry@,
            },
            ServerEvent::StealNeeded { throttle, addr, entry } => EventModel::StealNeeded {
                throttle: *throttle,
                addr: addr@,
                entry: entry@,
            },
            ServerEvent::PairingRequired => EventModel::PairingRequired,
            ServerEvent::PairingSucceeded(u) => EventModel::PairingSucceeded(u@),
            ServerEvent::PairingFailed => EventModel::PairingFailed,
            ServerEvent::Unknown(t) => EventModel::Unknown(t@),
        }
    }
}

/// Abstract form of an event list.
pub open spec fn events_view(v: Seq<ServerEvent>) -> Seq<EventModel> {
    v.map_values(|e: ServerEvent| e@)
}

} // verus!
