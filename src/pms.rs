//! The PMS side: which PCS each PMS command frame controls, and the
//! setpoints a command frame carries.

pub mod types;
