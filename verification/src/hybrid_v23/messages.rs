//! The messages of the handshake and their layout on the wire.

use crate::bytes::{
    le_bytes, le_value, lemma_le_bytes_len, lemma_le_bytes_of_value, lemma_le_value_bound,
    lemma_le_value_of_bytes, lemma_pow256, read_le, take, write_le, zeros,
};
use crate::types::HandshakeError;
use vstd::prelude::*;

verus! {

/// Length of a session identifier.
pub const SIZE_SESSION_ID: usize = 32;

pub const SIZE_AUTH: usize = 32;

pub const SIZE_RI_PROOF: usize = 32;

/// Key hash, proof, version and four bytes of zeros.
pub const SIZE_IDENTITY_PLAIN: usize = 72;

pub const SIZE_ENC_ID: usize = 88;

/// Next epoch, proof, next ratchet key, its identifier, version and four bytes of zeros.
pub const SIZE_CONFIRM_PLAIN: usize = 864;

pub const SIZE_ENC_CONFIRM: usize = 880;

pub const TYPE_INITIATION: u32 = 1;

pub const TYPE_RESPONSE: u32 = 2;

pub const TYPE_COOKIE_REPLY: u32 = 3;

/// The first handshake with a peer.
pub const MODE_BOOTSTRAP: u32 = 0;

/// A handshake that uses the ratchet key of the previous one.
pub const MODE_RATCHET: u32 = 1;

/// A handshake of an initiator that has lost the ratchet key.
pub const MODE_RESYNC: u32 = 2;

pub const PROTOCOL_VERSION_V2_3: u32 = 0x0002_0003;

/// Length of the longest message.
pub const MAX_HANDSHAKE_MSG_SIZE: usize = 2012;

/// A session identifier. Its first four bytes are the index of the session.
pub type SessionId = [u8; 32];

/// The index of a session.
pub open spec fn session_index_spec(sid: Seq<u8>) -> nat {
    le_value(sid.subrange(0, 4))
}

/// The index of a session: the first four bytes of its identifier, in little endian.
pub fn session_index(sid: &SessionId) -> (r: u32)
    ensures
        r == session_index_spec(sid@),
        r == sid@[0] + 0x100 * sid@[1] + 0x1_0000 * sid@[2] + 0x100_0000 * sid@[3],
{
    let head: [u8; 4] = take(sid, 0);
    proof {
        reveal_with_fuel(le_value, 5);
        lemma_le_value_bound(head@);
        lemma_pow256();
        let s = head@;
        assert(s.drop_first().drop_first().drop_first().drop_first() =~= Seq::empty());
    }
    read_le(&head) as u32
}

/// The part of an initiation that its tags authenticate.
#[derive(Clone, Copy, Debug, PartialEq, Eq)]
pub struct NoiseInitiation {
    pub f_type: u32,
    pub f_mode: u32,
    pub f_epoch: u64,
    pub f_sender: SessionId,
    pub f_ephemeral: [u8; 32],
    pub f_ephemeral_pq: [u8; 800],
    pub f_ratchet_kid: [u8; 16],
    pub f_ratchet_ct: [u8; 768],
    pub f_static_ct_pq: [u8; 156],
    pub f_identity: [u8; 88],
    pub f_timestamp: [u8; 32],
    pub f_auth: [u8; 32],
}

impl NoiseInitiation {
    /// The message on the wire: the fields in order, integers in little endian.
    pub open spec fn bytes(self) -> Seq<u8> {
        le_bytes(self.f_type as nat, 4)
            + le_bytes(self.f_mode as nat, 4)
            + le_bytes(self.f_epoch as nat, 8)
            + self.f_sender@
            + self.f_ephemeral@
            + self.f_ephemeral_pq@
            + self.f_ratchet_kid@
            + self.f_ratchet_ct@
            + self.f_static_ct_pq@
            + self.f_identity@
            + self.f_timestamp@
            + self.f_auth@
    }

    pub proof fn lemma_bytes_len(self)
        ensures
            self.bytes().len() == 1972,
    {
        lemma_le_bytes_len(self.f_type as nat, 4);
        lemma_le_bytes_len(self.f_mode as nat, 4);
        lemma_le_bytes_len(self.f_epoch as nat, 8);
    }

    /// Two values with the same bytes are the same.
    pub proof fn lemma_injective(self, other: Self)
        requires
            self.bytes() == other.bytes(),
        ensures
            self == other,
    {
        self.lemma_bytes_len();
        other.lemma_bytes_len();
        lemma_pow256();
        lemma_le_bytes_len(self.f_type as nat, 4);
        lemma_le_bytes_len(other.f_type as nat, 4);
        lemma_le_bytes_len(self.f_mode as nat, 4);
        lemma_le_bytes_len(other.f_mode as nat, 4);
        lemma_le_bytes_len(self.f_epoch as nat, 8);
        lemma_le_bytes_len(other.f_epoch as nat, 8);
        let s = self.bytes();
        lemma_le_value_of_bytes(self.f_type as nat, 4);
        lemma_le_value_of_bytes(other.f_type as nat, 4);
        assert(s.subrange(0, 4) =~= le_bytes(self.f_type as nat, 4));
        assert(s.subrange(0, 4) =~= le_bytes(other.f_type as nat, 4));
        lemma_le_value_of_bytes(self.f_mode as nat, 4);
        lemma_le_value_of_bytes(other.f_mode as nat, 4);
        assert(s.subrange(4, 8) =~= le_bytes(self.f_mode as nat, 4));
        assert(s.subrange(4, 8) =~= le_bytes(other.f_mode as nat, 4));
        lemma_le_value_of_bytes(self.f_epoch as nat, 8);
        lemma_le_value_of_bytes(other.f_epoch as nat, 8);
        assert(s.subrange(8, 16) =~= le_bytes(self.f_epoch as nat, 8));
        assert(s.subrange(8, 16) =~= le_bytes(other.f_epoch as nat, 8));
        assert(s.subrange(16, 48) =~= self.f_sender@);
        assert(s.subrange(16, 48) =~= other.f_sender@);
        assert(self.f_sender =~= other.f_sender);
        assert(s.subrange(48, 80) =~= self.f_ephemeral@);
        assert(s.subrange(48, 80) =~= other.f_ephemeral@);
        assert(self.f_ephemeral =~= other.f_ephemeral);
        assert(s.subrange(80, 880) =~= self.f_ephemeral_pq@);
        assert(s.subrange(80, 880) =~= other.f_ephemeral_pq@);
        assert(self.f_ephemeral_pq =~= other.f_ephemeral_pq);
        assert(s.subrange(880, 896) =~= self.f_ratchet_kid@);
        assert(s.subrange(880, 896) =~= other.f_ratchet_kid@);
        assert(self.f_ratchet_kid =~= other.f_ratchet_kid);
        assert(s.subrange(896, 1664) =~= self.f_ratchet_ct@);
        assert(s.subrange(896, 1664) =~= other.f_ratchet_ct@);
        assert(self.f_ratchet_ct =~= other.f_ratchet_ct);
        assert(s.subrange(1664, 1820) =~= self.f_static_ct_pq@);
        assert(s.subrange(1664, 1820) =~= other.f_static_ct_pq@);
        assert(self.f_static_ct_pq =~= other.f_static_ct_pq);
        assert(s.subrange(1820, 1908) =~= self.f_identity@);
        assert(s.subrange(1820, 1908) =~= other.f_identity@);
        assert(self.f_identity =~= other.f_identity);
        assert(s.subrange(1908, 1940) =~= self.f_timestamp@);
        assert(s.subrange(1908, 1940) =~= other.f_timestamp@);
        assert(self.f_timestamp =~= other.f_timestamp);
        assert(s.subrange(1940, 1972) =~= self.f_auth@);
        assert(s.subrange(1940, 1972) =~= other.f_auth@);
        assert(self.f_auth =~= other.f_auth);
    }

    /// The message on the wire.
    pub fn as_bytes(&self) -> (r: Vec<u8>)
        ensures
            r@ == self.bytes(),
            r@.len() == 1972,
    {
        let mut r: Vec<u8> = Vec::new();
        let f_type_bytes: [u8; 4] = write_le(self.f_type as u64);
        r.extend_from_slice(&f_type_bytes);
        let f_mode_bytes: [u8; 4] = write_le(self.f_mode as u64);
        r.extend_from_slice(&f_mode_bytes);
        let f_epoch_bytes: [u8; 8] = write_le(self.f_epoch as u64);
        r.extend_from_slice(&f_epoch_bytes);
        r.extend_from_slice(&self.f_sender);
        r.extend_from_slice(&self.f_ephemeral);
        r.extend_from_slice(&self.f_ephemeral_pq);
        r.extend_from_slice(&self.f_ratchet_kid);
        r.extend_from_slice(&self.f_ratchet_ct);
        r.extend_from_slice(&self.f_static_ct_pq);
        r.extend_from_slice(&self.f_identity);
        r.extend_from_slice(&self.f_timestamp);
        r.extend_from_slice(&self.f_auth);
        assert(r@ =~= self.bytes());
        proof {
            self.lemma_bytes_len();
        }
        r
    }

    /// The message at offset `at` of `s`.
    pub fn read(s: &[u8], at: usize) -> (r: Self)
        requires
            at + 1972 <= s.len(),
        ensures
            r.bytes() == s@.subrange(at as int, at + 1972),
    {
        let f_type: [u8; 4] = take(s, at + 0);
        let f_mode: [u8; 4] = take(s, at + 4);
        let f_epoch: [u8; 8] = take(s, at + 8);
        let f_sender: [u8; 32] = take(s, at + 16);
        let f_ephemeral: [u8; 32] = take(s, at + 48);
        let f_ephemeral_pq: [u8; 800] = take(s, at + 80);
        let f_ratchet_kid: [u8; 16] = take(s, at + 880);
        let f_ratchet_ct: [u8; 768] = take(s, at + 896);
        let f_static_ct_pq: [u8; 156] = take(s, at + 1664);
        let f_identity: [u8; 88] = take(s, at + 1820);
        let f_timestamp: [u8; 32] = take(s, at + 1908);
        let f_auth: [u8; 32] = take(s, at + 1940);
        proof {
            lemma_pow256();
            lemma_le_value_bound(f_type@);
            lemma_le_bytes_of_value(f_type@);
            lemma_le_value_bound(f_mode@);
            lemma_le_bytes_of_value(f_mode@);
            lemma_le_value_bound(f_epoch@);
            lemma_le_bytes_of_value(f_epoch@);
        }
        let r = NoiseInitiation {
            f_type: read_le(&f_type) as u32,
            f_mode: read_le(&f_mode) as u32,
            f_epoch: read_le(&f_epoch),
            f_sender,
            f_ephemeral,
            f_ephemeral_pq,
            f_ratchet_kid,
            f_ratchet_ct,
            f_static_ct_pq,
            f_identity,
            f_timestamp,
            f_auth,
        };
        proof {
            let w = s@.subrange(at as int, at + 1972);
            assert(f_type@ =~= w.subrange(0, 4));
            assert(f_mode@ =~= w.subrange(4, 8));
            assert(w.subrange(0, 4) + w.subrange(4, 8) =~= w.subrange(0, 8));
            assert(f_epoch@ =~= w.subrange(8, 16));
            assert(w.subrange(0, 8) + w.subrange(8, 16) =~= w.subrange(0, 16));
            assert(f_sender@ =~= w.subrange(16, 48));
            assert(w.subrange(0, 16) + w.subrange(16, 48) =~= w.subrange(0, 48));
            assert(f_ephemeral@ =~= w.subrange(48, 80));
            assert(w.subrange(0, 48) + w.subrange(48, 80) =~= w.subrange(0, 80));
            assert(f_ephemeral_pq@ =~= w.subrange(80, 880));
            assert(w.subrange(0, 80) + w.subrange(80, 880) =~= w.subrange(0, 880));
            assert(f_ratchet_kid@ =~= w.subrange(880, 896));
            assert(w.subrange(0, 880) + w.subrange(880, 896) =~= w.subrange(0, 896));
            assert(f_ratchet_ct@ =~= w.subrange(896, 1664));
            assert(w.subrange(0, 896) + w.subrange(896, 1664) =~= w.subrange(0, 1664));
            assert(f_static_ct_pq@ =~= w.subrange(1664, 1820));
            assert(w.subrange(0, 1664) + w.subrange(1664, 1820) =~= w.subrange(0, 1820));
            assert(f_identity@ =~= w.subrange(1820, 1908));
            assert(w.subrange(0, 1820) + w.subrange(1820, 1908) =~= w.subrange(0, 1908));
            assert(f_timestamp@ =~= w.subrange(1908, 1940));
            assert(w.subrange(0, 1908) + w.subrange(1908, 1940) =~= w.subrange(0, 1940));
            assert(f_auth@ =~= w.subrange(1940, 1972));
            assert(w.subrange(0, 1940) + w.subrange(1940, 1972) =~= w.subrange(0, 1972));
            assert(w.subrange(0, 1972) =~= w);
        }
        r
    }
}

impl Default for NoiseInitiation {
    fn default() -> (r: Self)
        ensures
            r.f_type == TYPE_INITIATION,
            r.f_mode == 0,
            r.f_epoch == 0,
            r.f_sender@ == zeros(32),
            r.f_ephemeral@ == zeros(32),
            r.f_ephemeral_pq@ == zeros(800),
            r.f_ratchet_kid@ == zeros(16),
            r.f_ratchet_ct@ == zeros(768),
            r.f_static_ct_pq@ == zeros(156),
            r.f_identity@ == zeros(88),
            r.f_timestamp@ == zeros(32),
            r.f_auth@ == zeros(32),
    {
        let r = NoiseInitiation {
            f_type: TYPE_INITIATION,
            f_mode: 0,
            f_epoch: 0,
            f_sender: [0u8; 32],
            f_ephemeral: [0u8; 32],
            f_ephemeral_pq: [0u8; 800],
            f_ratchet_kid: [0u8; 16],
            f_ratchet_ct: [0u8; 768],
            f_static_ct_pq: [0u8; 156],
            f_identity: [0u8; 88],
            f_timestamp: [0u8; 32],
            f_auth: [0u8; 32],
        };
        assert(r.f_sender@ =~= zeros(32));
        assert(r.f_ephemeral@ =~= zeros(32));
        assert(r.f_ephemeral_pq@ =~= zeros(800));
        assert(r.f_ratchet_kid@ =~= zeros(16));
        assert(r.f_ratchet_ct@ =~= zeros(768));
        assert(r.f_static_ct_pq@ =~= zeros(156));
        assert(r.f_identity@ =~= zeros(88));
        assert(r.f_timestamp@ =~= zeros(32));
        assert(r.f_auth@ =~= zeros(32));
        r
    }
}

/// The part of a response that its tags authenticate.
#[derive(Clone, Copy, Debug, PartialEq, Eq)]
pub struct NoiseResponse {
    pub f_type: u32,
    pub f_mode: u32,
    pub f_epoch: u64,
    pub f_sender: SessionId,
    pub f_receiver: SessionId,
    pub f_ephemeral: [u8; 32],
    pub f_ephemeral_ct_pq: [u8; 768],
    pub f_static_ct_pq: [u8; 156],
    pub f_hash_ephemeral_pq: [u8; 32],
    pub f_confirm: [u8; 880],
    pub f_auth: [u8; 32],
}

impl NoiseResponse {
    /// The message on the wire: the fields in order, integers in little endian.
    pub open spec fn bytes(self) -> Seq<u8> {
        le_bytes(self.f_type as nat, 4)
            + le_bytes(self.f_mode as nat, 4)
            + le_bytes(self.f_epoch as nat, 8)
            + self.f_sender@
            + self.f_receiver@
            + self.f_ephemeral@
            + self.f_ephemeral_ct_pq@
            + self.f_static_ct_pq@
            + self.f_hash_ephemeral_pq@
            + self.f_confirm@
            + self.f_auth@
    }

    pub proof fn lemma_bytes_len(self)
        ensures
            self.bytes().len() == 1980,
    {
        lemma_le_bytes_len(self.f_type as nat, 4);
        lemma_le_bytes_len(self.f_mode as nat, 4);
        lemma_le_bytes_len(self.f_epoch as nat, 8);
    }

    /// Two values with the same bytes are the same.
    pub proof fn lemma_injective(self, other: Self)
        requires
            self.bytes() == other.bytes(),
        ensures
            self == other,
    {
        self.lemma_bytes_len();
        other.lemma_bytes_len();
        lemma_pow256();
        lemma_le_bytes_len(self.f_type as nat, 4);
        lemma_le_bytes_len(other.f_type as nat, 4);
        lemma_le_bytes_len(self.f_mode as nat, 4);
        lemma_le_bytes_len(other.f_mode as nat, 4);
        lemma_le_bytes_len(self.f_epoch as nat, 8);
        lemma_le_bytes_len(other.f_epoch as nat, 8);
        let s = self.bytes();
        lemma_le_value_of_bytes(self.f_type as nat, 4);
        lemma_le_value_of_bytes(other.f_type as nat, 4);
        assert(s.subrange(0, 4) =~= le_bytes(self.f_type as nat, 4));
        assert(s.subrange(0, 4) =~= le_bytes(other.f_type as nat, 4));
        lemma_le_value_of_bytes(self.f_mode as nat, 4);
        lemma_le_value_of_bytes(other.f_mode as nat, 4);
        assert(s.subrange(4, 8) =~= le_bytes(self.f_mode as nat, 4));
        assert(s.subrange(4, 8) =~= le_bytes(other.f_mode as nat, 4));
        lemma_le_value_of_bytes(self.f_epoch as nat, 8);
        lemma_le_value_of_bytes(other.f_epoch as nat, 8);
        assert(s.subrange(8, 16) =~= le_bytes(self.f_epoch as nat, 8));
        assert(s.subrange(8, 16) =~= le_bytes(other.f_epoch as nat, 8));
        assert(s.subrange(16, 48) =~= self.f_sender@);
        assert(s.subrange(16, 48) =~= other.f_sender@);
        assert(self.f_sender =~= other.f_sender);
        assert(s.subrange(48, 80) =~= self.f_receiver@);
        assert(s.subrange(48, 80) =~= other.f_receiver@);
        assert(self.f_receiver =~= other.f_receiver);
        assert(s.subrange(80, 112) =~= self.f_ephemeral@);
        assert(s.subrange(80, 112) =~= other.f_ephemeral@);
        assert(self.f_ephemeral =~= other.f_ephemeral);
        assert(s.subrange(112, 880) =~= self.f_ephemeral_ct_pq@);
        assert(s.subrange(112, 880) =~= other.f_ephemeral_ct_pq@);
        assert(self.f_ephemeral_ct_pq =~= other.f_ephemeral_ct_pq);
        assert(s.subrange(880, 1036) =~= self.f_static_ct_pq@);
        assert(s.subrange(880, 1036) =~= other.f_static_ct_pq@);
        assert(self.f_static_ct_pq =~= other.f_static_ct_pq);
        assert(s.subrange(1036, 1068) =~= self.f_hash_ephemeral_pq@);
        assert(s.subrange(1036, 1068) =~= other.f_hash_ephemeral_pq@);
        assert(self.f_hash_ephemeral_pq =~= other.f_hash_ephemeral_pq);
        assert(s.subrange(1068, 1948) =~= self.f_confirm@);
        assert(s.subrange(1068, 1948) =~= other.f_confirm@);
        assert(self.f_confirm =~= other.f_confirm);
        assert(s.subrange(1948, 1980) =~= self.f_auth@);
        assert(s.subrange(1948, 1980) =~= other.f_auth@);
        assert(self.f_auth =~= other.f_auth);
    }

    /// The message on the wire.
    pub fn as_bytes(&self) -> (r: Vec<u8>)
        ensures
            r@ == self.bytes(),
            r@.len() == 1980,
    {
        let mut r: Vec<u8> = Vec::new();
        let f_type_bytes: [u8; 4] = write_le(self.f_type as u64);
        r.extend_from_slice(&f_type_bytes);
        let f_mode_bytes: [u8; 4] = write_le(self.f_mode as u64);
        r.extend_from_slice(&f_mode_bytes);
        let f_epoch_bytes: [u8; 8] = write_le(self.f_epoch as u64);
        r.extend_from_slice(&f_epoch_bytes);
        r.extend_from_slice(&self.f_sender);
        r.extend_from_slice(&self.f_receiver);
        r.extend_from_slice(&self.f_ephemeral);
        r.extend_from_slice(&self.f_ephemeral_ct_pq);
        r.extend_from_slice(&self.f_static_ct_pq);
        r.extend_from_slice(&self.f_hash_ephemeral_pq);
        r.extend_from_slice(&self.f_confirm);
        r.extend_from_slice(&self.f_auth);
        assert(r@ =~= self.bytes());
        proof {
            self.lemma_bytes_len();
        }
        r
    }

    /// The message at offset `at` of `s`.
    pub fn read(s: &[u8], at: usize) -> (r: Self)
        requires
            at + 1980 <= s.len(),
        ensures
            r.bytes() == s@.subrange(at as int, at + 1980),
    {
        let f_type: [u8; 4] = take(s, at + 0);
        let f_mode: [u8; 4] = take(s, at + 4);
        let f_epoch: [u8; 8] = take(s, at + 8);
        let f_sender: [u8; 32] = take(s, at + 16);
        let f_receiver: [u8; 32] = take(s, at + 48);
        let f_ephemeral: [u8; 32] = take(s, at + 80);
        let f_ephemeral_ct_pq: [u8; 768] = take(s, at + 112);
        let f_static_ct_pq: [u8; 156] = take(s, at + 880);
        let f_hash_ephemeral_pq: [u8; 32] = take(s, at + 1036);
        let f_confirm: [u8; 880] = take(s, at + 1068);
        let f_auth: [u8; 32] = take(s, at + 1948);
        proof {
            lemma_pow256();
            lemma_le_value_bound(f_type@);
            lemma_le_bytes_of_value(f_type@);
            lemma_le_value_bound(f_mode@);
            lemma_le_bytes_of_value(f_mode@);
            lemma_le_value_bound(f_epoch@);
            lemma_le_bytes_of_value(f_epoch@);
        }
        let r = NoiseResponse {
            f_type: read_le(&f_type) as u32,
            f_mode: read_le(&f_mode) as u32,
            f_epoch: read_le(&f_epoch),
            f_sender,
            f_receiver,
            f_ephemeral,
            f_ephemeral_ct_pq,
            f_static_ct_pq,
            f_hash_ephemeral_pq,
            f_confirm,
            f_auth,
        };
        proof {
            let w = s@.subrange(at as int, at + 1980);
            assert(f_type@ =~= w.subrange(0, 4));
            assert(f_mode@ =~= w.subrange(4, 8));
            assert(w.subrange(0, 4) + w.subrange(4, 8) =~= w.subrange(0, 8));
            assert(f_epoch@ =~= w.subrange(8, 16));
            assert(w.subrange(0, 8) + w.subrange(8, 16) =~= w.subrange(0, 16));
            assert(f_sender@ =~= w.subrange(16, 48));
            assert(w.subrange(0, 16) + w.subrange(16, 48) =~= w.subrange(0, 48));
            assert(f_receiver@ =~= w.subrange(48, 80));
            assert(w.subrange(0, 48) + w.subrange(48, 80) =~= w.subrange(0, 80));
            assert(f_ephemeral@ =~= w.subrange(80, 112));
            assert(w.subrange(0, 80) + w.subrange(80, 112) =~= w.subrange(0, 112));
            assert(f_ephemeral_ct_pq@ =~= w.subrange(112, 880));
            assert(w.subrange(0, 112) + w.subrange(112, 880) =~= w.subrange(0, 880));
            assert(f_static_ct_pq@ =~= w.subrange(880, 1036));
            assert(w.subrange(0, 880) + w.subrange(880, 1036) =~= w.subrange(0, 1036));
            assert(f_hash_ephemeral_pq@ =~= w.subrange(1036, 1068));
            assert(w.subrange(0, 1036) + w.subrange(1036, 1068) =~= w.subrange(0, 1068));
            assert(f_confirm@ =~= w.subrange(1068, 1948));
            assert(w.subrange(0, 1068) + w.subrange(1068, 1948) =~= w.subrange(0, 1948));
            assert(f_auth@ =~= w.subrange(1948, 1980));
            assert(w.subrange(0, 1948) + w.subrange(1948, 1980) =~= w.subrange(0, 1980));
            assert(w.subrange(0, 1980) =~= w);
        }
        r
    }
}

impl Default for NoiseResponse {
    fn default() -> (r: Self)
        ensures
            r.f_type == TYPE_RESPONSE,
            r.f_mode == 0,
            r.f_epoch == 0,
            r.f_sender@ == zeros(32),
            r.f_receiver@ == zeros(32),
            r.f_ephemeral@ == zeros(32),
            r.f_ephemeral_ct_pq@ == zeros(768),
            r.f_static_ct_pq@ == zeros(156),
            r.f_hash_ephemeral_pq@ == zeros(32),
            r.f_confirm@ == zeros(880),
            r.f_auth@ == zeros(32),
    {
        let r = NoiseResponse {
            f_type: TYPE_RESPONSE,
            f_mode: 0,
            f_epoch: 0,
            f_sender: [0u8; 32],
            f_receiver: [0u8; 32],
            f_ephemeral: [0u8; 32],
            f_ephemeral_ct_pq: [0u8; 768],
            f_static_ct_pq: [0u8; 156],
            f_hash_ephemeral_pq: [0u8; 32],
            f_confirm: [0u8; 880],
            f_auth: [0u8; 32],
        };
        assert(r.f_sender@ =~= zeros(32));
        assert(r.f_receiver@ =~= zeros(32));
        assert(r.f_ephemeral@ =~= zeros(32));
        assert(r.f_ephemeral_ct_pq@ =~= zeros(768));
        assert(r.f_static_ct_pq@ =~= zeros(156));
        assert(r.f_hash_ephemeral_pq@ =~= zeros(32));
        assert(r.f_confirm@ =~= zeros(880));
        assert(r.f_auth@ =~= zeros(32));
        r
    }
}

/// The tags at the end of an initiation and of a response.
#[derive(Clone, Copy, Debug, PartialEq, Eq)]
pub struct MacsFooter {
    pub f_mac1: [u8; 16],
    pub f_mac2: [u8; 16],
}

impl MacsFooter {
    /// The message on the wire: the fields in order, integers in little endian.
    pub open spec fn bytes(self) -> Seq<u8> {
        self.f_mac1@
            + self.f_mac2@
    }

    pub proof fn lemma_bytes_len(self)
        ensures
            self.bytes().len() == 32,
    {
    }

    /// Two values with the same bytes are the same.
    pub proof fn lemma_injective(self, other: Self)
        requires
            self.bytes() == other.bytes(),
        ensures
            self == other,
    {
        self.lemma_bytes_len();
        other.lemma_bytes_len();
        lemma_pow256();
        let s = self.bytes();
        assert(s.subrange(0, 16) =~= self.f_mac1@);
        assert(s.subrange(0, 16) =~= other.f_mac1@);
        assert(self.f_mac1 =~= other.f_mac1);
        assert(s.subrange(16, 32) =~= self.f_mac2@);
        assert(s.subrange(16, 32) =~= other.f_mac2@);
        assert(self.f_mac2 =~= other.f_mac2);
    }

    /// The message on the wire.
    pub fn as_bytes(&self) -> (r: Vec<u8>)
        ensures
            r@ == self.bytes(),
            r@.len() == 32,
    {
        let mut r: Vec<u8> = Vec::new();
        r.extend_from_slice(&self.f_mac1);
        r.extend_from_slice(&self.f_mac2);
        assert(r@ =~= self.bytes());
        proof {
            self.lemma_bytes_len();
        }
        r
    }

    /// The message at offset `at` of `s`.
    pub fn read(s: &[u8], at: usize) -> (r: Self)
        requires
            at + 32 <= s.len(),
        ensures
            r.bytes() == s@.subrange(at as int, at + 32),
    {
        let f_mac1: [u8; 16] = take(s, at + 0);
        let f_mac2: [u8; 16] = take(s, at + 16);
        proof {
            lemma_pow256();
        }
        let r = MacsFooter {
            f_mac1,
            f_mac2,
        };
        proof {
            let w = s@.subrange(at as int, at + 32);
            assert(f_mac1@ =~= w.subrange(0, 16));
            assert(f_mac2@ =~= w.subrange(16, 32));
            assert(w.subrange(0, 16) + w.subrange(16, 32) =~= w.subrange(0, 32));
            assert(w.subrange(0, 32) =~= w);
        }
        r
    }
}

impl Default for MacsFooter {
    fn default() -> (r: Self)
        ensures
            r.f_mac1@ == zeros(16),
            r.f_mac2@ == zeros(16),
    {
        let r = MacsFooter {
            f_mac1: [0u8; 16],
            f_mac2: [0u8; 16],
        };
        assert(r.f_mac1@ =~= zeros(16));
        assert(r.f_mac2@ =~= zeros(16));
        r
    }
}

/// A proof that its sender knows the rendezvous key and the handshake secrets.
#[derive(Clone, Copy, Debug, PartialEq, Eq)]
pub struct RiProof {
    pub f: u64,
    pub a: u64,
    pub delta: u16,
    pub ts: u64,
    pub reserved: [u8; 6],
}

impl RiProof {
    /// The message on the wire: the fields in order, integers in little endian.
    pub open spec fn bytes(self) -> Seq<u8> {
        le_bytes(self.f as nat, 8)
            + le_bytes(self.a as nat, 8)
            + le_bytes(self.delta as nat, 2)
            + le_bytes(self.ts as nat, 8)
            + self.reserved@
    }

    pub proof fn lemma_bytes_len(self)
        ensures
            self.bytes().len() == 32,
    {
        lemma_le_bytes_len(self.f as nat, 8);
        lemma_le_bytes_len(self.a as nat, 8);
        lemma_le_bytes_len(self.delta as nat, 2);
        lemma_le_bytes_len(self.ts as nat, 8);
    }

    /// Two values with the same bytes are the same.
    pub proof fn lemma_injective(self, other: Self)
        requires
            self.bytes() == other.bytes(),
        ensures
            self == other,
    {
        self.lemma_bytes_len();
        other.lemma_bytes_len();
        lemma_pow256();
        lemma_le_bytes_len(self.f as nat, 8);
        lemma_le_bytes_len(other.f as nat, 8);
        lemma_le_bytes_len(self.a as nat, 8);
        lemma_le_bytes_len(other.a as nat, 8);
        lemma_le_bytes_len(self.delta as nat, 2);
        lemma_le_bytes_len(other.delta as nat, 2);
        lemma_le_bytes_len(self.ts as nat, 8);
        lemma_le_bytes_len(other.ts as nat, 8);
        let s = self.bytes();
        lemma_le_value_of_bytes(self.f as nat, 8);
        lemma_le_value_of_bytes(other.f as nat, 8);
        assert(s.subrange(0, 8) =~= le_bytes(self.f as nat, 8));
        assert(s.subrange(0, 8) =~= le_bytes(other.f as nat, 8));
        lemma_le_value_of_bytes(self.a as nat, 8);
        lemma_le_value_of_bytes(other.a as nat, 8);
        assert(s.subrange(8, 16) =~= le_bytes(self.a as nat, 8));
        assert(s.subrange(8, 16) =~= le_bytes(other.a as nat, 8));
        lemma_le_value_of_bytes(self.delta as nat, 2);
        lemma_le_value_of_bytes(other.delta as nat, 2);
        assert(s.subrange(16, 18) =~= le_bytes(self.delta as nat, 2));
        assert(s.subrange(16, 18) =~= le_bytes(other.delta as nat, 2));
        lemma_le_value_of_bytes(self.ts as nat, 8);
        lemma_le_value_of_bytes(other.ts as nat, 8);
        assert(s.subrange(18, 26) =~= le_bytes(self.ts as nat, 8));
        assert(s.subrange(18, 26) =~= le_bytes(other.ts as nat, 8));
        assert(s.subrange(26, 32) =~= self.reserved@);
        assert(s.subrange(26, 32) =~= other.reserved@);
        assert(self.reserved =~= other.reserved);
    }

    /// The message on the wire.
    pub fn as_bytes(&self) -> (r: Vec<u8>)
        ensures
            r@ == self.bytes(),
            r@.len() == 32,
    {
        let mut r: Vec<u8> = Vec::new();
        let f_bytes: [u8; 8] = write_le(self.f as u64);
        r.extend_from_slice(&f_bytes);
        let a_bytes: [u8; 8] = write_le(self.a as u64);
        r.extend_from_slice(&a_bytes);
        let delta_bytes: [u8; 2] = write_le(self.delta as u64);
        r.extend_from_slice(&delta_bytes);
        let ts_bytes: [u8; 8] = write_le(self.ts as u64);
        r.extend_from_slice(&ts_bytes);
        r.extend_from_slice(&self.reserved);
        assert(r@ =~= self.bytes());
        proof {
            self.lemma_bytes_len();
        }
        r
    }

    /// The message at offset `at` of `s`.
    pub fn read(s: &[u8], at: usize) -> (r: Self)
        requires
            at + 32 <= s.len(),
        ensures
            r.bytes() == s@.subrange(at as int, at + 32),
    {
        let f: [u8; 8] = take(s, at + 0);
        let a: [u8; 8] = take(s, at + 8);
        let delta: [u8; 2] = take(s, at + 16);
        let ts: [u8; 8] = take(s, at + 18);
        let reserved: [u8; 6] = take(s, at + 26);
        proof {
            lemma_pow256();
            lemma_le_value_bound(f@);
            lemma_le_bytes_of_value(f@);
            lemma_le_value_bound(a@);
            lemma_le_bytes_of_value(a@);
            lemma_le_value_bound(delta@);
            lemma_le_bytes_of_value(delta@);
            lemma_le_value_bound(ts@);
            lemma_le_bytes_of_value(ts@);
        }
        let r = RiProof {
            f: read_le(&f),
            a: read_le(&a),
            delta: read_le(&delta) as u16,
            ts: read_le(&ts),
            reserved,
        };
        proof {
            let w = s@.subrange(at as int, at + 32);
            assert(f@ =~= w.subrange(0, 8));
            assert(a@ =~= w.subrange(8, 16));
            assert(w.subrange(0, 8) + w.subrange(8, 16) =~= w.subrange(0, 16));
            assert(delta@ =~= w.subrange(16, 18));
            assert(w.subrange(0, 16) + w.subrange(16, 18) =~= w.subrange(0, 18));
            assert(ts@ =~= w.subrange(18, 26));
            assert(w.subrange(0, 18) + w.subrange(18, 26) =~= w.subrange(0, 26));
            assert(reserved@ =~= w.subrange(26, 32));
            assert(w.subrange(0, 26) + w.subrange(26, 32) =~= w.subrange(0, 32));
            assert(w.subrange(0, 32) =~= w);
        }
        r
    }
}

impl Default for RiProof {
    fn default() -> (r: Self)
        ensures
            r.f == 0,
            r.a == 0,
            r.delta == 0,
            r.ts == 0,
            r.reserved@ == zeros(6),
    {
        let r = RiProof {
            f: 0,
            a: 0,
            delta: 0,
            ts: 0,
            reserved: [0u8; 6],
        };
        assert(r.reserved@ =~= zeros(6));
        r
    }
}

/// An answer that hands out a cookie instead of taking part in the handshake.
#[derive(Clone, Copy, Debug, PartialEq, Eq)]
pub struct CookieReply {
    pub f_type: u32,
    pub f_receiver: SessionId,
    pub f_nonce: [u8; 24],
    pub f_cookie: [u8; 32],
}

impl CookieReply {
    /// The message on the wire: the fields in order, integers in little endian.
    pub open spec fn bytes(self) -> Seq<u8> {
        le_bytes(self.f_type as nat, 4)
            + self.f_receiver@
            + self.f_nonce@
            + self.f_cookie@
    }

    pub proof fn lemma_bytes_len(self)
        ensures
            self.bytes().len() == 92,
    {
        lemma_le_bytes_len(self.f_type as nat, 4);
    }

    /// Two values with the same bytes are the same.
    pub proof fn lemma_injective(self, other: Self)
        requires
            self.bytes() == other.bytes(),
        ensures
            self == other,
    {
        self.lemma_bytes_len();
        other.lemma_bytes_len();
        lemma_pow256();
        lemma_le_bytes_len(self.f_type as nat, 4);
        lemma_le_bytes_len(other.f_type as nat, 4);
        let s = self.bytes();
        lemma_le_value_of_bytes(self.f_type as nat, 4);
        lemma_le_value_of_bytes(other.f_type as nat, 4);
        assert(s.subrange(0, 4) =~= le_bytes(self.f_type as nat, 4));
        assert(s.subrange(0, 4) =~= le_bytes(other.f_type as nat, 4));
        assert(s.subrange(4, 36) =~= self.f_receiver@);
        assert(s.subrange(4, 36) =~= other.f_receiver@);
        assert(self.f_receiver =~= other.f_receiver);
        assert(s.subrange(36, 60) =~= self.f_nonce@);
        assert(s.subrange(36, 60) =~= other.f_nonce@);
        assert(self.f_nonce =~= other.f_nonce);
        assert(s.subrange(60, 92) =~= self.f_cookie@);
        assert(s.subrange(60, 92) =~= other.f_cookie@);
        assert(self.f_cookie =~= other.f_cookie);
    }

    /// The message on the wire.
    pub fn as_bytes(&self) -> (r: Vec<u8>)
        ensures
            r@ == self.bytes(),
            r@.len() == 92,
    {
        let mut r: Vec<u8> = Vec::new();
        let f_type_bytes: [u8; 4] = write_le(self.f_type as u64);
        r.extend_from_slice(&f_type_bytes);
        r.extend_from_slice(&self.f_receiver);
        r.extend_from_slice(&self.f_nonce);
        r.extend_from_slice(&self.f_cookie);
        assert(r@ =~= self.bytes());
        proof {
            self.lemma_bytes_len();
        }
        r
    }

    /// The message at offset `at` of `s`.
    pub fn read(s: &[u8], at: usize) -> (r: Self)
        requires
            at + 92 <= s.len(),
        ensures
            r.bytes() == s@.subrange(at as int, at + 92),
    {
        let f_type: [u8; 4] = take(s, at + 0);
        let f_receiver: [u8; 32] = take(s, at + 4);
        let f_nonce: [u8; 24] = take(s, at + 36);
        let f_cookie: [u8; 32] = take(s, at + 60);
        proof {
            lemma_pow256();
            lemma_le_value_bound(f_type@);
            lemma_le_bytes_of_value(f_type@);
        }
        let r = CookieReply {
            f_type: read_le(&f_type) as u32,
            f_receiver,
            f_nonce,
            f_cookie,
        };
        proof {
            let w = s@.subrange(at as int, at + 92);
            assert(f_type@ =~= w.subrange(0, 4));
            assert(f_receiver@ =~= w.subrange(4, 36));
            assert(w.subrange(0, 4) + w.subrange(4, 36) =~= w.subrange(0, 36));
            assert(f_nonce@ =~= w.subrange(36, 60));
            assert(w.subrange(0, 36) + w.subrange(36, 60) =~= w.subrange(0, 60));
            assert(f_cookie@ =~= w.subrange(60, 92));
            assert(w.subrange(0, 60) + w.subrange(60, 92) =~= w.subrange(0, 92));
            assert(w.subrange(0, 92) =~= w);
        }
        r
    }
}

impl Default for CookieReply {
    fn default() -> (r: Self)
        ensures
            r.f_type == TYPE_COOKIE_REPLY,
            r.f_receiver@ == zeros(32),
            r.f_nonce@ == zeros(24),
            r.f_cookie@ == zeros(32),
    {
        let r = CookieReply {
            f_type: TYPE_COOKIE_REPLY,
            f_receiver: [0u8; 32],
            f_nonce: [0u8; 24],
            f_cookie: [0u8; 32],
        };
        assert(r.f_receiver@ =~= zeros(32));
        assert(r.f_nonce@ =~= zeros(24));
        assert(r.f_cookie@ =~= zeros(32));
        r
    }
}

/// The first message of a handshake.
#[derive(Clone, Copy, Debug, PartialEq, Eq)]
pub struct Initiation {
    pub noise: NoiseInitiation,
    pub macs: MacsFooter,
}

impl Initiation {
    /// The message on the wire.
    pub open spec fn bytes(self) -> Seq<u8> {
        self.noise.bytes() + self.macs.bytes()
    }

    /// Does `s` have the length and the type of such a message?
    pub open spec fn recognizes(s: Seq<u8>) -> bool {
        s.len() == 2004 && le_value(s.subrange(0, 4)) == TYPE_INITIATION
    }

    pub proof fn lemma_bytes_len(self)
        ensures
            self.bytes().len() == 2004,
    {
        self.noise.lemma_bytes_len();
        self.macs.lemma_bytes_len();
    }

    /// Two values with the same bytes are the same.
    pub proof fn lemma_injective(self, other: Self)
        requires
            self.bytes() == other.bytes(),
        ensures
            self == other,
    {
        self.noise.lemma_bytes_len();
        other.noise.lemma_bytes_len();
        self.macs.lemma_bytes_len();
        other.macs.lemma_bytes_len();
        let s = self.bytes();
        assert(s.subrange(0, 1972) =~= self.noise.bytes());
        assert(s.subrange(0, 1972) =~= other.noise.bytes());
        assert(s.subrange(1972, 2004) =~= self.macs.bytes());
        assert(s.subrange(1972, 2004) =~= other.macs.bytes());
        self.noise.lemma_injective(other.noise);
        self.macs.lemma_injective(other.macs);
    }

    /// A message of this type is recognized on the wire.
    pub proof fn lemma_recognizes(self)
        ensures
            self.noise.f_type == TYPE_INITIATION <==> Self::recognizes(self.bytes()),
    {
        self.lemma_bytes_len();
        self.noise.lemma_bytes_len();
        lemma_le_bytes_len(self.noise.f_type as nat, 4);
        lemma_pow256();
        lemma_le_value_of_bytes(self.noise.f_type as nat, 4);
        assert(self.bytes().subrange(0, 4) =~= le_bytes(self.noise.f_type as nat, 4));
    }

    /// The message on the wire.
    pub fn as_bytes(&self) -> (r: Vec<u8>)
        ensures
            r@ == self.bytes(),
            r@.len() == 2004,
    {
        let mut r = self.noise.as_bytes();
        let macs = self.macs.as_bytes();
        r.extend_from_slice(&macs);
        assert(r@ =~= self.bytes());
        r
    }

    /// Reads a message. It must have the right length and type.
    pub fn parse(bytes: &[u8]) -> (r: Result<Self, HandshakeError>)
        ensures
            match r {
                Ok(msg) => Self::recognizes(bytes@) && msg.bytes() == bytes@ && msg.noise.f_type
                    == TYPE_INITIATION,
                Err(e) => !Self::recognizes(bytes@) && e == HandshakeError::InvalidMessageFormat,
            },
    {
        if bytes.len() != 2004 {
            return Err(HandshakeError::InvalidMessageFormat);
        }
        let noise = NoiseInitiation::read(bytes, 0);
        let macs = MacsFooter::read(bytes, 1972);
        let msg = Initiation { noise, macs };
        proof {
            noise.lemma_bytes_len();
            macs.lemma_bytes_len();
            assert(bytes@.subrange(0, 1972) + bytes@.subrange(1972, 2004) =~= bytes@);
            msg.lemma_recognizes();
        }
        if msg.noise.f_type != TYPE_INITIATION {
            return Err(HandshakeError::InvalidMessageFormat);
        }
        Ok(msg)
    }
}

impl Default for Initiation {
    fn default() -> (r: Self)
        ensures
            call_ensures(NoiseInitiation::default, (), r.noise),
            call_ensures(MacsFooter::default, (), r.macs),
    {
        Initiation { noise: NoiseInitiation::default(), macs: MacsFooter::default() }
    }
}

/// The second message of a handshake.
#[derive(Clone, Copy, Debug, PartialEq, Eq)]
pub struct Response {
    pub noise: NoiseResponse,
    pub macs: MacsFooter,
}

impl Response {
    /// The message on the wire.
    pub open spec fn bytes(self) -> Seq<u8> {
        self.noise.bytes() + self.macs.bytes()
    }

    /// Does `s` have the length and the type of such a message?
    pub open spec fn recognizes(s: Seq<u8>) -> bool {
        s.len() == 2012 && le_value(s.subrange(0, 4)) == TYPE_RESPONSE
    }

    pub proof fn lemma_bytes_len(self)
        ensures
            self.bytes().len() == 2012,
    {
        self.noise.lemma_bytes_len();
        self.macs.lemma_bytes_len();
    }

    /// Two values with the same bytes are the same.
    pub proof fn lemma_injective(self, other: Self)
        requires
            self.bytes() == other.bytes(),
        ensures
            self == other,
    {
        self.noise.lemma_bytes_len();
        other.noise.lemma_bytes_len();
        self.macs.lemma_bytes_len();
        other.macs.lemma_bytes_len();
        let s = self.bytes();
        assert(s.subrange(0, 1980) =~= self.noise.bytes());
        assert(s.subrange(0, 1980) =~= other.noise.bytes());
        assert(s.subrange(1980, 2012) =~= self.macs.bytes());
        assert(s.subrange(1980, 2012) =~= other.macs.bytes());
        self.noise.lemma_injective(other.noise);
        self.macs.lemma_injective(other.macs);
    }

    /// A message of this type is recognized on the wire.
    pub proof fn lemma_recognizes(self)
        ensures
            self.noise.f_type == TYPE_RESPONSE <==> Self::recognizes(self.bytes()),
    {
        self.lemma_bytes_len();
        self.noise.lemma_bytes_len();
        lemma_le_bytes_len(self.noise.f_type as nat, 4);
        lemma_pow256();
        lemma_le_value_of_bytes(self.noise.f_type as nat, 4);
        assert(self.bytes().subrange(0, 4) =~= le_bytes(self.noise.f_type as nat, 4));
    }

    /// The message on the wire.
    pub fn as_bytes(&self) -> (r: Vec<u8>)
        ensures
            r@ == self.bytes(),
            r@.len() == 2012,
    {
        let mut r = self.noise.as_bytes();
        let macs = self.macs.as_bytes();
        r.extend_from_slice(&macs);
        assert(r@ =~= self.bytes());
        r
    }

    /// Reads a message. It must have the right length and type.
    pub fn parse(bytes: &[u8]) -> (r: Result<Self, HandshakeError>)
        ensures
            match r {
                Ok(msg) => Self::recognizes(bytes@) && msg.bytes() == bytes@ && msg.noise.f_type
                    == TYPE_RESPONSE,
                Err(e) => !Self::recognizes(bytes@) && e == HandshakeError::InvalidMessageFormat,
            },
    {
        if bytes.len() != 2012 {
            return Err(HandshakeError::InvalidMessageFormat);
        }
        let noise = NoiseResponse::read(bytes, 0);
        let macs = MacsFooter::read(bytes, 1980);
        let msg = Response { noise, macs };
        proof {
            noise.lemma_bytes_len();
            macs.lemma_bytes_len();
            assert(bytes@.subrange(0, 1980) + bytes@.subrange(1980, 2012) =~= bytes@);
            msg.lemma_recognizes();
        }
        if msg.noise.f_type != TYPE_RESPONSE {
            return Err(HandshakeError::InvalidMessageFormat);
        }
        Ok(msg)
    }
}

impl Default for Response {
    fn default() -> (r: Self)
        ensures
            call_ensures(NoiseResponse::default, (), r.noise),
            call_ensures(MacsFooter::default, (), r.macs),
    {
        Response { noise: NoiseResponse::default(), macs: MacsFooter::default() }
    }
}

impl CookieReply {
    /// Does `s` have the length and the type of such a message?
    pub open spec fn recognizes(s: Seq<u8>) -> bool {
        s.len() == 92 && le_value(s.subrange(0, 4)) == TYPE_COOKIE_REPLY
    }

    /// A message of this type is recognized on the wire.
    pub proof fn lemma_recognizes(self)
        ensures
            self.f_type == TYPE_COOKIE_REPLY <==> Self::recognizes(self.bytes()),
    {
        self.lemma_bytes_len();
        lemma_le_bytes_len(self.f_type as nat, 4);
        lemma_pow256();
        lemma_le_value_of_bytes(self.f_type as nat, 4);
        assert(self.bytes().subrange(0, 4) =~= le_bytes(self.f_type as nat, 4));
    }

    /// Reads a message. It must have the right length and type.
    pub fn parse(bytes: &[u8]) -> (r: Result<Self, HandshakeError>)
        ensures
            match r {
                Ok(msg) => Self::recognizes(bytes@) && msg.bytes() == bytes@ && msg.f_type
                    == TYPE_COOKIE_REPLY,
                Err(e) => !Self::recognizes(bytes@) && e == HandshakeError::InvalidMessageFormat,
            },
    {
        if bytes.len() != 92 {
            return Err(HandshakeError::InvalidMessageFormat);
        }
        let msg = CookieReply::read(bytes, 0);
        proof {
            assert(bytes@.subrange(0, 92) =~= bytes@);
            msg.lemma_recognizes();
        }
        if msg.f_type != TYPE_COOKIE_REPLY {
            return Err(HandshakeError::InvalidMessageFormat);
        }
        Ok(msg)
    }
}

} // verus!
