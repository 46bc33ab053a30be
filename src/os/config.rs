//! The application configuration read at start-up.

use vstd::prelude::*;
use crate::text::{parse_unsigned, unsigned_of};

verus! {

/// Validity sweep interval used when the configuration gives none.
pub const DEFAULT_VALIDITY_INTERVAL_MS: u64 = 5000;

/// Application configuration: software version, configuration directory,
/// the two GOOSE interfaces and the validity sweep interval.
#[derive(Debug, Clone)]
pub struct AppConfig {
    pub sw_version: String,
    pub config_file_path: String,
    pub goose_interface_lan1: String,
    pub goose_interface_lan2: String,
    pub validity_interval_ms: u64,
}

/// The validity interval configured by `text`: its decimal value, or the
/// default when the key is absent or does not parse.
pub fn validity_interval_from(text: Option<&str>) -> (r: u64)
    ensures
        r == match text {
            Some(t) => match unsigned_of(crate::plc::publisher::bytes_of(t@), 10) {
                Some(v) => if v <= u64::MAX { v as u64 } else { DEFAULT_VALIDITY_INTERVAL_MS },
                None => DEFAULT_VALIDITY_INTERVAL_MS,
            },
            None => DEFAULT_VALIDITY_INTERVAL_MS,
        },
{
    match text {
        Some(t) => match parse_unsigned(t.as_bytes(), 10, u64::MAX) {
            Some(v) => v,
            None => DEFAULT_VALIDITY_INTERVAL_MS,
        },
        None => DEFAULT_VALIDITY_INTERVAL_MS,
    }
}

} // verus!
