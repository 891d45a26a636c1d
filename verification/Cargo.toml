[package]
name = "hybrid_wireguard"
version = "0.1.0"
edition = "2021"
publish = false

[dependencies]
blake2 = "=0.9.2"
hmac = "=0.10.1"
hkdf = "=0.10.0"
aead = "=0.3.2"
chacha20poly1305 = "=0.7.1"
chacha20 = "=0.9.1"
generic-array = "=0.14.7"
x25519-dalek = "=1.2.0"
oqs = { version = "=0.11.0", default-features = false, features = ["classic_mceliece", "ml_kem", "std", "vendored"] }
subtle = "=2.4.1"
dashmap = "=6.2.1"
hex = "=0.4.3"
clear_on_drop = "=0.2.5"
rand_core = { version = "0.5", features = ["getrandom"] }
rand = "0.7"
spin = "=0.12.3"
log = "0.4"
env_logger = "=0.11.11"
meansd = "=2.1.0"
