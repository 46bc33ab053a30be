//! IEC 61850-8-1 GOOSE values, frames and their BER codec, and the pool of
//! receive buffers.

pub mod ber;
pub mod buffer_pool;
pub mod codec;
pub mod types;
pub mod value_codec;
