//! Verified core of the home-automation proxy: KNX frame classification,
//! the Breezart ventilation protocol, websocket message framing, the
//! Iridium session cookie and the local login sessions.

pub mod text;
pub mod knx;
pub mod breezart;
pub mod websocket;
pub mod iridium;
pub mod auth;
