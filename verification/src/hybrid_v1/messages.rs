//! The messages of the handshake and their layout on the wire.

use crate::bytes::{
    le_bytes, le_value, lemma_le_bytes_len, lemma_le_bytes_of_value, lemma_le_value_bound,
    lemma_le_value_of_bytes, lemma_pow256, read_le, take, write_le, zeros,
};
use crate::hybrid_v23::messages::MacsFooter;
use crate::types::HandshakeError;
use vstd::prelude::*;

verus! {

pub const TYPE_INITIATION: u32 = 1;

pub const TYPE_RESPONSE: u32 = 2;

pub const TYPE_COOKIE_REPLY: u32 = 3;

/// The part of an initiation that its tags authenticate.
#[derive(Clone, Copy, Debug, PartialEq, Eq)]
pub struct NoiseInitiation {
    pub f_type: u32,
    pub f_sender: u32,
    pub f_ephemeral: [u8; 32],
    pub f_ephemeral_pq: [u8; 800],
    pub f_static_ct_pq: [u8; 156],
    pub f_static: [u8; 48],
    pub f_timestamp: [u8; 32],
}

impl NoiseInitiation {
    /// The message on the wire: the fields in order, integers in little endian.
    pub open spec fn bytes(self) -> Seq<u8> {
        le_bytes(self.f_type as nat, 4)
            + le_bytes(self.f_sender as nat, 4)
            + self.f_ephemeral@
            + self.f_ephemeral_pq@
            + self.f_static_ct_pq@
            + self.f_static@
            + self.f_timestamp@
    }

    pub proof fn lemma_bytes_len(self)
        ensures
            self.bytes().len() == 1076,
    {
        lemma_le_bytes_len(self.f_type as nat, 4);
        lemma_le_bytes_len(self.f_sender as nat, 4);
    }

    /// Two values with the same bytes are the same.
    pub proof fn lemma_injective(self, other: Self)
        requires
            self.bytes() == other.bytes(),
        ensures
            self == other,
    {
        self.lemma_bytes_len();
        other.lemma_bytes_len();
        lemma_pow256();
        lemma_le_bytes_len(self.f_type as nat, 4);
        lemma_le_bytes_len(other.f_type as nat, 4);
        lemma_le_bytes_len(self.f_sender as nat, 4);
        lemma_le_bytes_len(other.f_sender as nat, 4);
        let s = self.bytes();
        lemma_le_value_of_bytes(self.f_type as nat, 4);
        lemma_le_value_of_bytes(other.f_type as nat, 4);
        assert(s.subrange(0, 4) =~= le_bytes(self.f_type as nat, 4));
        assert(s.subrange(0, 4) =~= le_bytes(other.f_type as nat, 4));
        lemma_le_value_of_bytes(self.f_sender as nat, 4);
        lemma_le_value_of_bytes(other.f_sender as nat, 4);
        assert(s.subrange(4, 8) =~= le_bytes(self.f_sender as nat, 4));
        assert(s.subrange(4, 8) =~= le_bytes(other.f_sender as nat, 4));
        assert(s.subrange(8, 40) =~= self.f_ephemeral@);
        assert(s.subrange(8, 40) =~= other.f_ephemeral@);
        assert(self.f_ephemeral =~= other.f_ephemeral);
        assert(s.subrange(40, 840) =~= self.f_ephemeral_pq@);
        assert(s.subrange(40, 840) =~= other.f_ephemeral_pq@);
        assert(self.f_ephemeral_pq =~= other.f_ephemeral_pq);
        assert(s.subrange(840, 996) =~= self.f_static_ct_pq@);
        assert(s.subrange(840, 996) =~= other.f_static_ct_pq@);
        assert(self.f_static_ct_pq =~= other.f_static_ct_pq);
        assert(s.subrange(996, 1044) =~= self.f_static@);
        assert(s.subrange(996, 1044) =~= other.f_static@);
        assert(self.f_static =~= other.f_static);
        assert(s.subrange(1044, 1076) =~= self.f_timestamp@);
        assert(s.subrange(1044, 1076) =~= other.f_timestamp@);
        assert(self.f_timestamp =~= other.f_timestamp);
    }

    /// The message on the wire.
    pub fn as_bytes(&self) -> (r: Vec<u8>)
        ensures
            r@ == self.bytes(),
            r@.len() == 1076,
    {
        let mut r: Vec<u8> = Vec::new();
        let f_type_bytes: [u8; 4] = write_le(self.f_type as u64);
        r.extend_from_slice(&f_type_bytes);
        let f_sender_bytes: [u8; 4] = write_le(self.f_sender as u64);
        r.extend_from_slice(&f_sender_bytes);
        r.extend_from_slice(&self.f_ephemeral);
        r.extend_from_slice(&self.f_ephemeral_pq);
        r.extend_from_slice(&self.f_static_ct_pq);
        r.extend_from_slice(&self.f_static);
        r.extend_from_slice(&self.f_timestamp);
        assert(r@ =~= self.bytes());
        proof {
            self.lemma_bytes_len();
        }
        r
    }

    /// The message at offset `at` of `s`.
    pub fn read(s: &[u8], at: usize) -> (r: Self)
        requires
            at + 1076 <= s.len(),
        ensures
            r.bytes() == s@.subrange(at as int, at + 1076),
    {
        let f_type: [u8; 4] = take(s, at + 0);
        let f_sender: [u8; 4] = take(s, at + 4);
        let f_ephemeral: [u8; 32] = take(s, at + 8);
        let f_ephemeral_pq: [u8; 800] = take(s, at + 40);
        let f_static_ct_pq: [u8; 156] = take(s, at + 840);
        let f_static: [u8; 48] = take(s, at + 996);
        let f_timestamp: [u8; 32] = take(s, at + 1044);
        proof {
            lemma_pow256();
            lemma_le_value_bound(f_type@);
            lemma_le_bytes_of_value(f_type@);
            lemma_le_value_bound(f_sender@);
            lemma_le_bytes_of_value(f_sender@);
        }
        let r = NoiseInitiation {
            f_type: read_le(&f_type) as u32,
            f_sender: read_le(&f_sender) as u32,
            f_ephemeral,
            f_ephemeral_pq,
            f_static_ct_pq,
            f_static,
            f_timestamp,
        };
        proof {
            let w = s@.subrange(at as int, at + 1076);
            assert(f_type@ =~= w.subrange(0, 4));
            assert(f_sender@ =~= w.subrange(4, 8));
            assert(w.subrange(0, 4) + w.subrange(4, 8) =~= w.subrange(0, 8));
            assert(f_ephemeral@ =~= w.subrange(8, 40));
            assert(w.subrange(0, 8) + w.subrange(8, 40) =~= w.subrange(0, 40));
            assert(f_ephemeral_pq@ =~= w.subrange(40, 840));
            assert(w.subrange(0, 40) + w.subrange(40, 840) =~= w.subrange(0, 840));
            assert(f_static_ct_pq@ =~= w.subrange(840, 996));
            assert(w.subrange(0, 840) + w.subrange(840, 996) =~= w.subrange(0, 996));
            assert(f_static@ =~= w.subrange(996, 1044));
            assert(w.subrange(0, 996) + w.subrange(996, 1044) =~= w.subrange(0, 1044));
            assert(f_timestamp@ =~= w.subrange(1044, 1076));
            assert(w.subrange(0, 1044) + w.subrange(1044, 1076) =~= w.subrange(0, 1076));
            assert(w.subrange(0, 1076) =~= w);
        }
        r
    }
}

impl Default for NoiseInitiation {
    fn default() -> (r: Self)
        ensures
            r.f_type == TYPE_INITIATION,
            r.f_sender == 0,
            r.f_ephemeral@ == zeros(32),
            r.f_ephemeral_pq@ == zeros(800),
            r.f_static_ct_pq@ == zeros(156),
            r.f_static@ == zeros(48),
            r.f_timestamp@ == zeros(32),
    {
        let r = NoiseInitiation {
            f_type: TYPE_INITIATION,
            f_sender: 0,
            f_ephemeral: [0u8; 32],
            f_ephemeral_pq: [0u8; 800],
            f_static_ct_pq: [0u8; 156],
            f_static: [0u8; 48],
            f_timestamp: [0u8; 32],
        };
        assert(r.f_ephemeral@ =~= zeros(32));
        assert(r.f_ephemeral_pq@ =~= zeros(800));
        assert(r.f_static_ct_pq@ =~= zeros(156));
        assert(r.f_static@ =~= zeros(48));
        assert(r.f_timestamp@ =~= zeros(32));
        r
    }
}

/// The part of a response that its tags authenticate.
#[derive(Clone, Copy, Debug, PartialEq, Eq)]
pub struct NoiseResponse {
    pub f_type: u32,
    pub f_sender: u32,
    pub f_receiver: u32,
    pub f_ephemeral: [u8; 32],
    pub f_ephemeral_ct_pq: [u8; 768],
    pub f_static_ct_pq: [u8; 156],
    pub f_empty: [u8; 16],
}

impl NoiseResponse {
    /// The message on the wire: the fields in order, integers in little endian.
    pub open spec fn bytes(self) -> Seq<u8> {
        le_bytes(self.f_type as nat, 4)
            + le_bytes(self.f_sender as nat, 4)
            + le_bytes(self.f_receiver as nat, 4)
            + self.f_ephemeral@
            + self.f_ephemeral_ct_pq@
            + self.f_static_ct_pq@
            + self.f_empty@
    }

    pub proof fn lemma_bytes_len(self)
        ensures
            self.bytes().len() == 984,
    {
        lemma_le_bytes_len(self.f_type as nat, 4);
        lemma_le_bytes_len(self.f_sender as nat, 4);
        lemma_le_bytes_len(self.f_receiver as nat, 4);
    }

    /// Two values with the same bytes are the same.
    pub proof fn lemma_injective(self, other: Self)
        requires
            self.bytes() == other.bytes(),
        ensures
            self == other,
    {
        self.lemma_bytes_len();
        other.lemma_bytes_len();
        lemma_pow256();
        lemma_le_bytes_len(self.f_type as nat, 4);
        lemma_le_bytes_len(other.f_type as nat, 4);
        lemma_le_bytes_len(self.f_sender as nat, 4);
        lemma_le_bytes_len(other.f_sender as nat, 4);
        lemma_le_bytes_len(self.f_receiver as nat, 4);
        lemma_le_bytes_len(other.f_receiver as nat, 4);
        let s = self.bytes();
        lemma_le_value_of_bytes(self.f_type as nat, 4);
        lemma_le_value_of_bytes(other.f_type as nat, 4);
        assert(s.subrange(0, 4) =~= le_bytes(self.f_type as nat, 4));
        assert(s.subrange(0, 4) =~= le_bytes(other.f_type as nat, 4));
        lemma_le_value_of_bytes(self.f_sender as nat, 4);
        lemma_le_value_of_bytes(other.f_sender as nat, 4);
        assert(s.subrange(4, 8) =~= le_bytes(self.f_sender as nat, 4));
        assert(s.subrange(4, 8) =~= le_bytes(other.f_sender as nat, 4));
        lemma_le_value_of_bytes(self.f_receiver as nat, 4);
        lemma_le_value_of_bytes(other.f_receiver as nat, 4);
        assert(s.subrange(8, 12) =~= le_bytes(self.f_receiver as nat, 4));
        assert(s.subrange(8, 12) =~= le_bytes(other.f_receiver as nat, 4));
        assert(s.subrange(12, 44) =~= self.f_ephemeral@);
        assert(s.subrange(12, 44) =~= other.f_ephemeral@);
        assert(self.f_ephemeral =~= other.f_ephemeral);
        assert(s.subrange(44, 812) =~= self.f_ephemeral_ct_pq@);
        assert(s.subrange(44, 812) =~= other.f_ephemeral_ct_pq@);
        assert(self.f_ephemeral_ct_pq =~= other.f_ephemeral_ct_pq);
        assert(s.subrange(812, 968) =~= self.f_static_ct_pq@);
        assert(s.subrange(812, 968) =~= other.f_static_ct_pq@);
        assert(self.f_static_ct_pq =~= other.f_static_ct_pq);
        assert(s.subrange(968, 984) =~= self.f_empty@);
        assert(s.subrange(968, 984) =~= other.f_empty@);
        assert(self.f_empty =~= other.f_empty);
    }

    /// The message on the wire.
    pub fn as_bytes(&self) -> (r: Vec<u8>)
        ensures
            r@ == self.bytes(),
            r@.len() == 984,
    {
        let mut r: Vec<u8> = Vec::new();
        let f_type_bytes: [u8; 4] = write_le(self.f_type as u64);
        r.extend_from_slice(&f_type_bytes);
        let f_sender_bytes: [u8; 4] = write_le(self.f_sender as u64);
        r.extend_from_slice(&f_sender_bytes);
        let f_receiver_bytes: [u8; 4] = write_le(self.f_receiver as u64);
        r.extend_from_slice(&f_receiver_bytes);
        r.extend_from_slice(&self.f_ephemeral);
        r.extend_from_slice(&self.f_ephemeral_ct_pq);
        r.extend_from_slice(&self.f_static_ct_pq);
        r.extend_from_slice(&self.f_empty);
        assert(r@ =~= self.bytes());
        proof {
            self.lemma_bytes_len();
        }
        r
    }

    /// The message at offset `at` of `s`.
    pub fn read(s: &[u8], at: usize) -> (r: Self)
        requires
            at + 984 <= s.len(),
        ensures
            r.bytes() == s@.subrange(at as int, at + 984),
    {
        let f_type: [u8; 4] = take(s, at + 0);
        let f_sender: [u8; 4] = take(s, at + 4);
        let f_receiver: [u8; 4] = take(s, at + 8);
        let f_ephemeral: [u8; 32] = take(s, at + 12);
        let f_ephemeral_ct_pq: [u8; 768] = take(s, at + 44);
        let f_static_ct_pq: [u8; 156] = take(s, at + 812);
        let f_empty: [u8; 16] = take(s, at + 968);
        proof {
            lemma_pow256();
            lemma_le_value_bound(f_type@);
            lemma_le_bytes_of_value(f_type@);
            lemma_le_value_bound(f_sender@);
            lemma_le_bytes_of_value(f_sender@);
            lemma_le_value_bound(f_receiver@);
            lemma_le_bytes_of_value(f_receiver@);
        }
        let r = NoiseResponse {
            f_type: read_le(&f_type) as u32,
            f_sender: read_le(&f_sender) as u32,
            f_receiver: read_le(&f_receiver) as u32,
            f_ephemeral,
            f_ephemeral_ct_pq,
            f_static_ct_pq,
            f_empty,
        };
        proof {
            let w = s@.subrange(at as int, at + 984);
            assert(f_type@ =~= w.subrange(0, 4));
            assert(f_sender@ =~= w.subrange(4, 8));
            assert(w.subrange(0, 4) + w.subrange(4, 8) =~= w.subrange(0, 8));
            assert(f_receiver@ =~= w.subrange(8, 12));
            assert(w.subrange(0, 8) + w.subrange(8, 12) =~= w.subrange(0, 12));
            assert(f_ephemeral@ =~= w.subrange(12, 44));
            assert(w.subrange(0, 12) + w.subrange(12, 44) =~= w.subrange(0, 44));
            assert(f_ephemeral_ct_pq@ =~= w.subrange(44, 812));
            assert(w.subrange(0, 44) + w.subrange(44, 812) =~= w.subrange(0, 812));
            assert(f_static_ct_pq@ =~= w.subrange(812, 968));
            assert(w.subrange(0, 812) + w.subrange(812, 968) =~= w.subrange(0, 968));
            assert(f_empty@ =~= w.subrange(968, 984));
            assert(w.subrange(0, 968) + w.subrange(968, 984) =~= w.subrange(0, 984));
            assert(w.subrange(0, 984) =~= w);
        }
        r
    }
}

impl Default for NoiseResponse {
    fn default() -> (r: Self)
        ensures
            r.f_type == TYPE_RESPONSE,
            r.f_sender == 0,
            r.f_receiver == 0,
            r.f_ephemeral@ == zeros(32),
            r.f_ephemeral_ct_pq@ == zeros(768),
            r.f_static_ct_pq@ == zeros(156),
            r.f_empty@ == zeros(16),
    {
        let r = NoiseResponse {
            f_type: TYPE_RESPONSE,
            f_sender: 0,
            f_receiver: 0,
            f_ephemeral: [0u8; 32],
            f_ephemeral_ct_pq: [0u8; 768],
            f_static_ct_pq: [0u8; 156],
            f_empty: [0u8; 16],
        };
        assert(r.f_ephemeral@ =~= zeros(32));
        assert(r.f_ephemeral_ct_pq@ =~= zeros(768));
        assert(r.f_static_ct_pq@ =~= zeros(156));
        assert(r.f_empty@ =~= zeros(16));
        r
    }
}

/// An answer that hands out a cookie instead of taking part in the handshake.
#[derive(Clone, Copy, Debug, PartialEq, Eq)]
pub struct CookieReply {
    pub f_type: u32,
    pub f_receiver: u32,
    pub f_nonce: [u8; 24],
    pub f_cookie: [u8; 32],
}

impl CookieReply {
    /// The message on the wire: the fields in order, integers in little endian.
    pub open spec fn bytes(self) -> Seq<u8> {
        le_bytes(self.f_type as nat, 4)
            + le_bytes(self.f_receiver as nat, 4)
            + self.f_nonce@
            + self.f_cookie@
    }

    pub proof fn lemma_bytes_len(self)
        ensures
            self.bytes().len() == 64,
    {
        lemma_le_bytes_len(self.f_type as nat, 4);
        lemma_le_bytes_len(self.f_receiver as nat, 4);
    }

    /// Two values with the same bytes are the same.
    pub proof fn lemma_injective(self, other: Self)
        requires
            self.bytes() == other.bytes(),
        ensures
            self == other,
    {
        self.lemma_bytes_len();
        other.lemma_bytes_len();
        lemma_pow256();
        lemma_le_bytes_len(self.f_type as nat, 4);
        lemma_le_bytes_len(other.f_type as nat, 4);
        lemma_le_bytes_len(self.f_receiver as nat, 4);
        lemma_le_bytes_len(other.f_receiver as nat, 4);
        let s = self.bytes();
        lemma_le_value_of_bytes(self.f_type as nat, 4);
        lemma_le_value_of_bytes(other.f_type as nat, 4);
        assert(s.subrange(0, 4) =~= le_bytes(self.f_type as nat, 4));
        assert(s.subrange(0, 4) =~= le_bytes(other.f_type as nat, 4));
        lemma_le_value_of_bytes(self.f_receiver as nat, 4);
        lemma_le_value_of_bytes(other.f_receiver as nat, 4);
        assert(s.subrange(4, 8) =~= le_bytes(self.f_receiver as nat, 4));
        assert(s.subrange(4, 8) =~= le_bytes(other.f_receiver as nat, 4));
        assert(s.subrange(8, 32) =~= self.f_nonce@);
        assert(s.subrange(8, 32) =~= other.f_nonce@);
        assert(self.f_nonce =~= other.f_nonce);
        assert(s.subrange(32, 64) =~= self.f_cookie@);
        assert(s.subrange(32, 64) =~= other.f_cookie@);
        assert(self.f_cookie =~= other.f_cookie);
    }

    /// The message on the wire.
    pub fn as_bytes(&self) -> (r: Vec<u8>)
        ensures
            r@ == self.bytes(),
            r@.len() == 64,
    {
        let mut r: Vec<u8> = Vec::new();
        let f_type_bytes: [u8; 4] = write_le(self.f_type as u64);
        r.extend_from_slice(&f_type_bytes);
        let f_receiver_bytes: [u8; 4] = write_le(self.f_receiver as u64);
        r.extend_from_slice(&f_receiver_bytes);
        r.extend_from_slice(&self.f_nonce);
        r.extend_from_slice(&self.f_cookie);
        assert(r@ =~= self.bytes());
        proof {
            self.lemma_bytes_len();
        }
        r
    }

    /// The message at offset `at` of `s`.
    pub fn read(s: &[u8], at: usize) -> (r: Self)
        requires
            at + 64 <= s.len(),
        ensures
            r.bytes() == s@.subrange(at as int, at + 64),
    {
        let f_type: [u8; 4] = take(s, at + 0);
        let f_receiver: [u8; 4] = take(s, at + 4);
        let f_nonce: [u8; 24] = take(s, at + 8);
        let f_cookie: [u8; 32] = take(s, at + 32);
        proof {
            lemma_pow256();
            lemma_le_value_bound(f_type@);
            lemma_le_bytes_of_value(f_type@);
            lemma_le_value_bound(f_receiver@);
            lemma_le_bytes_of_value(f_receiver@);
        }
        let r = CookieReply {
            f_type: read_le(&f_type) as u32,
            f_receiver: read_le(&f_receiver) as u32,
            f_nonce,
            f_cookie,
        };
        proof {
            let w = s@.subrange(at as int, at + 64);
            assert(f_type@ =~= w.subrange(0, 4));
            assert(f_receiver@ =~= w.subrange(4, 8));
            assert(w.subrange(0, 4) + w.subrange(4, 8) =~= w.subrange(0, 8));
            assert(f_nonce@ =~= w.subrange(8, 32));
            assert(w.subrange(0, 8) + w.subrange(8, 32) =~= w.subrange(0, 32));
            assert(f_cookie@ =~= w.subrange(32, 64));
            assert(w.subrange(0, 32) + w.subrange(32, 64) =~= w.subrange(0, 64));
            assert(w.subrange(0, 64) =~= w);
        }
        r
    }
}

impl Default for CookieReply {
    fn default() -> (r: Self)
        ensures
            r.f_type == TYPE_COOKIE_REPLY,
            r.f_receiver == 0,
            r.f_nonce@ == zeros(24),
            r.f_cookie@ == zeros(32),
    {
        let r = CookieReply {
            f_type: TYPE_COOKIE_REPLY,
            f_receiver: 0,
            f_nonce: [0u8; 24],
            f_cookie: [0u8; 32],
        };
        assert(r.f_nonce@ =~= zeros(24));
        assert(r.f_cookie@ =~= zeros(32));
        r
    }
}

/// The first message of a handshake.
#[derive(Clone, Copy, Debug, PartialEq, Eq)]
pub struct Initiation {
    pub noise: NoiseInitiation,
    pub macs: MacsFooter,
}

impl Initiation {
    /// The message on the wire.
    pub open spec fn bytes(self) -> Seq<u8> {
        self.noise.bytes() + self.macs.bytes()
    }

    /// Does `s` have the length and the type of such a message?
    pub open spec fn recognizes(s: Seq<u8>) -> bool {
        s.len() == 1108 && le_value(s.subrange(0, 4)) == TYPE_INITIATION
    }

    pub proof fn lemma_bytes_len(self)
        ensures
            self.bytes().len() == 1108,
    {
        self.noise.lemma_bytes_len();
        self.macs.lemma_bytes_len();
    }

    /// Two values with the same bytes are the same.
    pub proof fn lemma_injective(self, other: Self)
        requires
            self.bytes() == other.bytes(),
        ensures
            self == other,
    {
        self.noise.lemma_bytes_len();
        other.noise.lemma_bytes_len();
        self.macs.lemma_bytes_len();
        other.macs.lemma_bytes_len();
        let s = self.bytes();
        assert(s.subrange(0, 1076) =~= self.noise.bytes());
        assert(s.subrange(0, 1076) =~= other.noise.bytes());
        assert(s.subrange(1076, 1108) =~= self.macs.bytes());
        assert(s.subrange(1076, 1108) =~= other.macs.bytes());
        self.noise.lemma_injective(other.noise);
        self.macs.lemma_injective(other.macs);
    }

    /// A message of this type is recognized on the wire.
    pub proof fn lemma_recognizes(self)
        ensures
            self.noise.f_type == TYPE_INITIATION <==> Self::recognizes(self.bytes()),
    {
        self.lemma_bytes_len();
        self.noise.lemma_bytes_len();
        lemma_le_bytes_len(self.noise.f_type as nat, 4);
        lemma_pow256();
        lemma_le_value_of_bytes(self.noise.f_type as nat, 4);
        assert(self.bytes().subrange(0, 4) =~= le_bytes(self.noise.f_type as nat, 4));
    }

    /// The message on the wire.
    pub fn as_bytes(&self) -> (r: Vec<u8>)
        ensures
            r@ == self.bytes(),
            r@.len() == 1108,
    {
        let mut r = self.noise.as_bytes();
        let macs = self.macs.as_bytes();
        r.extend_from_slice(&macs);
        assert(r@ =~= self.bytes());
        r
    }

    /// Reads a message. It must have the right length and type.
    pub fn parse(bytes: &[u8]) -> (r: Result<Self, HandshakeError>)
        ensures
            match r {
                Ok(msg) => Self::recognizes(bytes@) && msg.bytes() == bytes@ && msg.noise.f_type
                    == TYPE_INITIATION,
                Err(e) => !Self::recognizes(bytes@) && e == HandshakeError::InvalidMessageFormat,
            },
    {
        if bytes.len() != 1108 {
            return Err(HandshakeError::InvalidMessageFormat);
        }
        let noise = NoiseInitiation::read(bytes, 0);
        let macs = MacsFooter::read(bytes, 1076);
        let msg = Initiation { noise, macs };
        proof {
            noise.lemma_bytes_len();
            macs.lemma_bytes_len();
            assert(bytes@.subrange(0, 1076) + bytes@.subrange(1076, 1108) =~= bytes@);
            msg.lemma_recognizes();
        }
        if msg.noise.f_type != TYPE_INITIATION {
            return Err(HandshakeError::InvalidMessageFormat);
        }
        Ok(msg)
    }
}

impl Default for Initiation {
    fn default() -> (r: Self)
        ensures
            call_ensures(NoiseInitiation::default, (), r.noise),
            call_ensures(MacsFooter::default, (), r.macs),
    {
        Initiation { noise: NoiseInitiation::default(), macs: MacsFooter::default() }
    }
}

/// The second message of a handshake.
#[derive(Clone, Copy, Debug, PartialEq, Eq)]
pub struct Response {
    pub noise: NoiseResponse,
    pub macs: MacsFooter,
}

impl Response {
    /// The message on the wire.
    pub open spec fn bytes(self) -> Seq<u8> {
        self.noise.bytes() + self.macs.bytes()
    }

    /// Does `s` have the length and the type of such a message?
    pub open spec fn recognizes(s: Seq<u8>) -> bool {
        s.len() == 1016 && le_value(s.subrange(0, 4)) == TYPE_RESPONSE
    }

    pub proof fn lemma_bytes_len(self)
        ensures
            self.bytes().len() == 1016,
    {
        self.noise.lemma_bytes_len();
        self.macs.lemma_bytes_len();
    }

    /// Two values with the same bytes are the same.
    pub proof fn lemma_injective(self, other: Self)
        requires
            self.bytes() == other.bytes(),
        ensures
            self == other,
    {
        self.noise.lemma_bytes_len();
        other.noise.lemma_bytes_len();
        self.macs.lemma_bytes_len();
        other.macs.lemma_bytes_len();
        let s = self.bytes();
        assert(s.subrange(0, 984) =~= self.noise.bytes());
        assert(s.subrange(0, 984) =~= other.noise.bytes());
        assert(s.subrange(984, 1016) =~= self.macs.bytes());
        assert(s.subrange(984, 1016) =~= other.macs.bytes());
        self.noise.lemma_injective(other.noise);
        self.macs.lemma_injective(other.macs);
    }

    /// A message of this type is recognized on the wire.
    pub proof fn lemma_recognizes(self)
        ensures
            self.noise.f_type == TYPE_RESPONSE <==> Self::recognizes(self.bytes()),
    {
        self.lemma_bytes_len();
        self.noise.lemma_bytes_len();
        lemma_le_bytes_len(self.noise.f_type as nat, 4);
        lemma_pow256();
        lemma_le_value_of_bytes(self.noise.f_type as nat, 4);
        assert(self.bytes().subrange(0, 4) =~= le_bytes(self.noise.f_type as nat, 4));
    }

    /// The message on the wire.
    pub fn as_bytes(&self) -> (r: Vec<u8>)
        ensures
            r@ == self.bytes(),
            r@.len() == 1016,
    {
        let mut r = self.noise.as_bytes();
        let macs = self.macs.as_bytes();
        r.extend_from_slice(&macs);
        assert(r@ =~= self.bytes());
        r
    }

    /// Reads a message. It must have the right length and type.
    pub fn parse(bytes: &[u8]) -> (r: Result<Self, HandshakeError>)
        ensures
            match r {
                Ok(msg) => Self::recognizes(bytes@) && msg.bytes() == bytes@ && msg.noise.f_type
                    == TYPE_RESPONSE,
                Err(e) => !Self::recognizes(bytes@) && e == HandshakeError::InvalidMessageFormat,
            },
    {
        if bytes.len() != 1016 {
            return Err(HandshakeError::InvalidMessageFormat);
        }
        let noise = NoiseResponse::read(bytes, 0);
        let macs = MacsFooter::read(bytes, 984);
        let msg = Response { noise, macs };
        proof {
            noise.lemma_bytes_len();
            macs.lemma_bytes_len();
            assert(bytes@.subrange(0, 984) + bytes@.subrange(984, 1016) =~= bytes@);
            msg.lemma_recognizes();
        }
        if msg.noise.f_type != TYPE_RESPONSE {
            return Err(HandshakeError::InvalidMessageFormat);
        }
        Ok(msg)
    }
}

impl Default for Response {
    fn default() -> (r: Self)
        ensures
            call_ensures(NoiseResponse::default, (), r.noise),
            call_ensures(MacsFooter::default, (), r.macs),
    {
        Response { noise: NoiseResponse::default(), macs: MacsFooter::default() }
    }
}

impl CookieReply {
    /// Does `s` have the length and the type of such a message?
    pub open spec fn recognizes(s: Seq<u8>) -> bool {
        s.len() == 64 && le_value(s.subrange(0, 4)) == TYPE_COOKIE_REPLY
    }

    /// A message of this type is recognized on the wire.
    pub proof fn lemma_recognizes(self)
        ensures
            self.f_type == TYPE_COOKIE_REPLY <==> Self::recognizes(self.bytes()),
    {
        self.lemma_bytes_len();
        lemma_le_bytes_len(self.f_type as nat, 4);
        lemma_pow256();
        lemma_le_value_of_bytes(self.f_type as nat, 4);
        assert(self.bytes().subrange(0, 4) =~= le_bytes(self.f_type as nat, 4));
    }

    /// Reads a message. It must have the right length and type.
    pub fn parse(bytes: &[u8]) -> (r: Result<Self, HandshakeError>)
        ensures
            match r {
                Ok(msg) => Self::recognizes(bytes@) && msg.bytes() == bytes@ && msg.f_type
                    == TYPE_COOKIE_REPLY,
                Err(e) => !Self::recognizes(bytes@) && e == HandshakeError::InvalidMessageFormat,
            },
    {
        if bytes.len() != 64 {
            return Err(HandshakeError::InvalidMessageFormat);
        }
        let msg = CookieReply::read(bytes, 0);
        proof {
            assert(bytes@.subrange(0, 64) =~= bytes@);
            msg.lemma_recognizes();
        }
        if msg.f_type != TYPE_COOKIE_REPLY {
            return Err(HandshakeError::InvalidMessageFormat);
        }
        Ok(msg)
    }
}

} // verus!
