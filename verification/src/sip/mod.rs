//! The SIP side: messages, digest authentication, voice routes and the bridge
//! to Brew calls.
pub mod auth;
pub mod auth_laws;
pub mod bridge;
pub mod bridge_laws;
pub mod message;
pub mod message_laws;
pub mod routing;
