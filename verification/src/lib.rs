//! Signalling hub for a peer-to-peer screen-sharing product.
//!
//! Peers connect over a full-duplex text channel, identify themselves as a
//! host (screen-sharer) or a viewer, and exchange WebRTC session descriptions
//! and ICE candidates through this hub.  The hub keeps the authoritative
//! registry of live sessions and forwards addressed frames between peers; it
//! never touches media bytes.

pub mod args;
pub mod assoc;
pub mod channel;
pub mod codec;
pub mod errors;
pub mod ice;
pub mod json;
pub mod peer;
pub mod rooms;
pub mod roundtrip;
pub mod rtc;
pub mod service;
pub mod session;
pub mod state;
pub mod text;
