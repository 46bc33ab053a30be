//! Per-PCS configuration and runtime state: nameplates, the APPID index,
//! the subscription state machine, the validity sweep and the publisher
//! frames.

pub mod index;
pub mod nameplate;
pub mod publisher;
pub mod record;
pub mod store;
