//! The hybrid handshake in its first version: Diffie-Hellman and key encapsulations side by
//! side, without a ratchet.

pub mod agreement;
pub mod binding;
pub mod completion;
pub mod cookies;
pub mod device;
pub mod guarantees;
pub mod keys;
pub mod messages;
pub mod noise;
pub mod peer;
pub mod verdicts;
pub mod wire;
