//! Verified core of a TETRA "Brew" server.
pub mod access;
pub mod aprs;
pub mod bytes;
pub mod calendar;
pub mod config;
pub mod control;
pub mod dashboard;
pub mod digest;
pub mod federation;
pub mod history;
pub mod ids;
pub mod monitor;
pub mod position;
pub mod position_laws;
pub mod protocol;
pub mod protocol_laws;
pub mod registrations;
pub mod router;
pub mod router_laws;
pub mod scan;
pub mod sdslog;
pub mod server;
pub mod sip;
pub mod state;
pub mod store;
pub mod table;
pub mod telemetry;
pub mod text;
pub mod text_laws;
pub mod transcode;
