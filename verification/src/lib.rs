//! Handshakes of a hybrid, post-quantum WireGuard.

pub mod assoc;
pub mod binding;
pub mod bytes;
pub mod crypto;
pub mod decimal;
pub mod exchange;
pub mod kem;
pub mod labels;
pub mod macs;
pub mod pq_star;
pub mod ratelimiter;
pub mod session_table;
pub mod tags;
pub mod types;
pub mod uapi;
pub mod hybrid_v1;
pub mod hybrid_v23;
