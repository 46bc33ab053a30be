//! GOOSE protocol engine of a PCS simulator / gateway: codec, subscription
//! state machine, retransmission schedule, PLC datagrams and PCS state.

pub mod goose;
pub mod os;
pub mod pcs;
pub mod plc;
pub mod pms;
pub mod retransmit;
pub mod text;
