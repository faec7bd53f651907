//! LongFred handset protocol library: wire parsers, command builders and session logic.
#![allow(unused_imports)]

pub mod bigfred;
pub mod caps;
pub mod command;
pub mod model;
pub mod text;
pub mod withrottle;
pub mod z21;
pub mod action;
pub mod events;
pub mod persist;
pub mod catalog;
pub mod adapter;
pub mod image;
pub mod input_map;
pub mod menu;
pub mod network;
pub mod provisioning;
pub mod ui;
