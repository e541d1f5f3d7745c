//! Race resolution for peer-to-peer connections: a per-socket tie-break
//! handshake, the shared registry of in-flight and active connections per peer,
//! contact information, and the event queue towards the owning application.

pub mod peer_id;
pub mod registry;
pub mod candidate;
pub mod contact_info;
pub mod event;
