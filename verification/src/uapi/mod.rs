//! The text protocol with which a device is configured and queried.

pub mod effects;
pub mod encoding;
pub mod get;
pub mod reading;
pub mod set;
