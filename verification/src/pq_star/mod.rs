//! The handshake that uses key encapsulations alone.

pub mod peer;
