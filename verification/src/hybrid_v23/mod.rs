//! The hybrid handshake with a recovery ratchet, protocol version 2.3.

pub mod agreement;
pub mod binding;
pub mod completion;
pub mod conduct;
pub mod cookies;
pub mod device;
pub mod dos;
pub mod guarantees;
pub mod history;
pub mod ip_state;
pub mod keys;
pub mod loads;
pub mod messages;
pub mod noise;
pub mod payload;
pub mod peer;
pub mod ratchet;
pub mod ri_proof;
pub mod runtime;
pub mod schedule;
pub mod sessions;
pub mod verdicts;
pub mod wire;
