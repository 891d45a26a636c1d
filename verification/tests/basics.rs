//! Labels, error texts, and the peers of the handshake without Diffie-Hellman.

use hybrid_wireguard::crypto::{hash1, hash2};
use hybrid_wireguard::hybrid_v23::{keys, ratchet, ri_proof, schedule};
use hybrid_wireguard::macs::{LABEL_COOKIE, LABEL_MAC1};
use hybrid_wireguard::pq_star::peer::{Peer, State};
use hybrid_wireguard::types::{ConfigError, HandshakeError, PQError};

#[test]
fn labels_are_written_out() {
    let labels: Vec<(&[u8], &str)> = vec![
        (&LABEL_MAC1, "mac1----"),
        (&LABEL_COOKIE, "cookie--"),
        (&keys::LABEL_COOKIE_ROOT, "hybrid-wireguard-cookie-root-v1"),
        (&ratchet::LABEL_RK, "hybrid-wireguard-v2.3-rk"),
        (&ratchet::LABEL_KRI, "hybrid-wireguard-v2.3-kri"),
        (&ri_proof::LABEL_RI, "hybrid-wireguard-ri-v2.3"),
        (&schedule::LABEL_PROTOCOL, "Hybrid-WireGuard-v2.3"),
        (&schedule::LABEL_KEM_R, "kem-r-public"),
        (&schedule::LABEL_SESSION, "hybrid-wireguard-v2.3-session-key"),
        (&schedule::LABEL_AUTH_I, "auth_i"),
        (&schedule::LABEL_AUTH_R, "auth_r"),
        (&schedule::LABEL_KID, "kid"),
        (&schedule::LABEL_RECOVERY, "recovery-ratchet"),
        (&schedule::LABEL_RI_RATCHET, "ri-ratchet"),
        (&schedule::LABEL_SESSION_KEY, "session-key"),
        (&schedule::LABEL_TRANSPORT, "transport"),
        (&schedule::LABEL_SHK2, "hybrid-wg-shk2"),
        (&schedule::LABEL_SHK_EE, "hybrid-wg-shk-ee"),
    ];
    for (bytes, text) in labels {
        assert_eq!(bytes, text.as_bytes());
    }
}

#[test]
fn errors_have_texts() {
    assert_eq!(HandshakeError::InvalidSharedSecret.message(), "Zero shared secret");
    assert_eq!(HandshakeError::InvalidMac1.message(), "Message has invalid mac1 field");
    assert_eq!(HandshakeError::OldTimestamp.description(), "Generic Handshake Error");
    assert_eq!(PQError::InvalidStaticKemSecretSize.description(), "Generic PQ Error");
    let error = ConfigError::new("No such public key");
    assert_eq!(error.description(), "No such public key");
    assert_eq!(error.message(), "ConfigError(No such public key)");
}

#[test]
fn a_peer_without_diffie_hellman_has_its_hashes() {
    let (own, other) = (vec![1u8; 40], vec![2u8; 50]);
    let mut peer: Peer<u8> = Peer::new(other.clone(), &own, 7);
    assert_eq!(peer.opaque, 7);
    assert_eq!(peer.pk_hash, hash1(&other));
    assert_eq!(peer.hash_static_pq_send, hash2(&own, &other));
    assert_eq!(peer.hash_static_pq_recv, hash2(&other, &own));
    assert_eq!(peer.macs.mac1_key, hash2(&LABEL_MAC1, &[0u8; 32]));
    peer.set_psk([5u8; 32]);
    assert_eq!(peer.psk, [5u8; 32]);
    assert_eq!(peer.macs.mac1_key, hash2(&LABEL_MAC1, &[5u8; 32]));
    assert_eq!(peer.macs_validator.cookie_key, hash2(&LABEL_COOKIE, &[5u8; 32]));
}

#[test]
fn a_peer_without_diffie_hellman_refuses_replays_and_floods() {
    let ms: u64 = 1_000_000;
    let mut peer: Peer<()> = Peer::new(vec![2u8; 50], &[1u8; 40], ());
    assert_eq!(peer.check_replay_flood(0, 0), Err(HandshakeError::OldTimestamp));
    peer.state = State::InitiationSent {
        local: 99,
        eph_sk_pq: [0u8; 1632],
        hs: [1u8; 32],
        ck: [2u8; 32],
    };
    assert_eq!(peer.check_replay_flood(3, 0), Ok(Some(99)));
    assert_eq!(peer.reset_state(), None);
    assert_eq!(peer.check_replay_flood(3, 50 * ms), Err(HandshakeError::OldTimestamp));
    assert_eq!(peer.check_replay_flood(4, 20 * ms - 1), Err(HandshakeError::InitiationFlood));
    assert_eq!(peer.check_replay_flood(4, 20 * ms), Ok(None));
}
