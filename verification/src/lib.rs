//! Shared core of Cordiale, a desktop client for the Grappa bouncer.

use vstd::prelude::*;

pub mod address;
pub mod admin;
pub mod bootstrap;
pub mod bytes;
pub mod client;
pub mod credentials;
pub mod decimal;
pub mod domain;
pub mod formatting;
pub mod isupport;
pub mod json;
pub mod links;
pub mod media;
pub mod order;
pub mod persistence;
pub mod phoenix;
pub mod player;
pub mod profile;
pub mod protocol;
pub mod radial;
pub mod radio;
pub mod rest;
pub mod session;
pub mod slash;
pub mod split;
pub mod stations;
pub mod taskbar;
pub mod text;
pub mod text_map;
pub mod theme;
pub mod upload;
pub mod websocket;
pub mod wire_event;

verus! {

/// The client's version, distinct from the Grappa protocol version.
pub const APP_VERSION: &'static str = "0.1.0";

} // verus!
