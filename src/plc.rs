//! The PLC side: UDP command datagrams, the GOOSE frames that carry PLC
//! commands, and the telemetry image sent back.

pub mod com;
pub mod command;
pub mod image;
pub mod publisher;
pub mod types;
