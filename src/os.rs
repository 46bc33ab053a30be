//! Process-level pieces: the application configuration and real-time
//! thread preparation.

pub mod config;
pub mod linux_rt;
