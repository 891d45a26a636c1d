//! What a derived key depends on.
//!
//! A hash has 32 bytes, so different inputs can have the same one. What is stated here holds
//! as long as no such collision is met: of two derivations one lists every input that they
//! hash, and asks that no two different ones among them have the same hash.

use crate::bytes::{le_bytes, lemma_le_bytes_len, lemma_le_value_of_bytes, lemma_pow256};
use crate::crypto::{
    blake2s, blake2s_mac, hkdf_blake2s, hmac_blake2s, hmac_block, kdf1_spec, kdf2_spec, kdf3_spec,
};
use vstd::prelude::*;

verus! {

/// Hashes have 32 bytes, and no two different ones of these inputs have the same hash.
#[verifier::opaque]
pub open spec fn told_apart(met: Set<Seq<u8>>) -> bool {
    &&& forall|a: Seq<u8>, b: Seq<u8>|
        met.contains(a) && met.contains(b) && #[trigger] blake2s(a) == #[trigger] blake2s(b) ==> a
            == b
    &&& forall|a: Seq<u8>| #[trigger] blake2s(a).len() == 32
}

/// Are all inputs that a code hashes among `met`?
pub open spec fn hmac_met(met: Set<Seq<u8>>, key: Seq<u8>, data: Seq<u8>) -> bool {
    let inner = hmac_block(key, 0x36) + data;
    &&& key.len() > 64 ==> met.contains(key)
    &&& met.contains(inner)
    &&& met.contains(hmac_block(key, 0x5c) + blake2s(inner))
}

/// Are all inputs that the derivation of up to three keys hashes among `met`?
pub open spec fn kdf_met(met: Set<Seq<u8>>, key: Seq<u8>, input: Seq<u8>) -> bool {
    let t0 = hmac_blake2s(key, input);
    let (t1, t2, _) = kdf3_spec(key, input);
    &&& hmac_met(met, key, input)
    &&& hmac_met(met, t0, seq![1u8])
    &&& hmac_met(met, t0, t1 + seq![2u8])
    &&& hmac_met(met, t0, t2 + seq![3u8])
}

/// Are all inputs that an extraction and expansion hashes among `met`?
pub open spec fn hkdf_met(met: Set<Seq<u8>>, salt: Seq<u8>, ikm: Seq<u8>, info: Seq<u8>) -> bool {
    &&& hmac_met(met, salt, ikm)
    &&& hmac_met(met, hmac_blake2s(salt, ikm), info + seq![1u8])
}

/// Parts of the same length can be read off from what they were joined to.
pub proof fn lemma_joined(a: Seq<u8>, b: Seq<u8>, c: Seq<u8>, d: Seq<u8>)
    requires
        a.len() == c.len(),
        a + b == c + d,
    ensures
        a == c,
        b == d,
{
    assert(a =~= (a + b).take(a.len() as int));
    assert(c =~= (c + d).take(a.len() as int));
    assert(b =~= (a + b).skip(a.len() as int));
    assert(d =~= (c + d).skip(a.len() as int));
}

/// The last part can be read off by its length.
pub proof fn lemma_joined_end(a: Seq<u8>, b: Seq<u8>, c: Seq<u8>, d: Seq<u8>)
    requires
        b.len() == d.len(),
        a + b == c + d,
    ensures
        a == c,
        b == d,
{
    assert((a + b).len() == a.len() + b.len());
    assert((c + d).len() == c.len() + d.len());
    lemma_joined(a, b, c, d);
}

/// The same hash, the same input.
pub proof fn lemma_hash(met: Set<Seq<u8>>, a: Seq<u8>, b: Seq<u8>)
    requires
        told_apart(met),
        met.contains(a),
        met.contains(b),
        blake2s(a) == blake2s(b),
    ensures
        a == b,
{
    reveal(told_apart);
}

pub proof fn lemma_hash_len(met: Set<Seq<u8>>, a: Seq<u8>)
    requires
        told_apart(met),
    ensures
        blake2s(a).len() == 32,
{
    reveal(told_apart);
}

pub proof fn lemma_hmac_len(met: Set<Seq<u8>>, key: Seq<u8>, data: Seq<u8>)
    requires
        told_apart(met),
    ensures
        hmac_blake2s(key, data).len() == 32,
{
    reveal(told_apart);
    reveal(hmac_blake2s);
}

proof fn lemma_block(met: Set<Seq<u8>>, a: Seq<u8>, b: Seq<u8>, pad: u8)
    requires
        told_apart(met),
        a.len() == b.len(),
        a.len() > 64 ==> met.contains(a) && met.contains(b),
        hmac_block(a, pad) == hmac_block(b, pad),
    ensures
        a == b,
{
    let k = if a.len() <= 64 {
        a
    } else {
        blake2s(a)
    };
    let l = if b.len() <= 64 {
        b
    } else {
        blake2s(b)
    };
    lemma_hash_len(met, a);
    lemma_hash_len(met, b);
    assert forall|i: int| 0 <= i < k.len() implies k[i] == l[i] by {
        assert(hmac_block(a, pad)[i] == k[i] ^ pad);
        assert(hmac_block(b, pad)[i] == l[i] ^ pad);
        let (x, y) = (k[i], l[i]);
        assert(x ^ pad == y ^ pad ==> x == y) by (bit_vector);
    }
    assert(k =~= l);
    if a.len() > 64 {
        lemma_hash(met, a, b);
    }
}

/// The same code, the same key and the same data.
pub proof fn lemma_hmac(met: Set<Seq<u8>>, a: Seq<u8>, c: Seq<u8>, b: Seq<u8>, d: Seq<u8>)
    requires
        told_apart(met),
        a.len() == b.len(),
        hmac_met(met, a, c),
        hmac_met(met, b, d),
        hmac_blake2s(a, c) == hmac_blake2s(b, d),
    ensures
        a == b,
        c == d,
{
    reveal(hmac_blake2s);
    let (x, y) = (hmac_block(a, 0x36) + c, hmac_block(b, 0x36) + d);
    lemma_hash(met, hmac_block(a, 0x5c) + blake2s(x), hmac_block(b, 0x5c) + blake2s(y));
    lemma_joined(hmac_block(a, 0x5c), blake2s(x), hmac_block(b, 0x5c), blake2s(y));
    lemma_hash(met, x, y);
    lemma_joined(hmac_block(a, 0x36), c, hmac_block(b, 0x36), d);
    lemma_block(met, a, b, 0x36);
}

/// Derived keys have 32 bytes.
pub proof fn lemma_kdf_len(met: Set<Seq<u8>>, key: Seq<u8>, input: Seq<u8>)
    requires
        told_apart(met),
    ensures
        kdf3_spec(key, input).0.len() == 32,
        kdf3_spec(key, input).1.len() == 32,
        kdf3_spec(key, input).2.len() == 32,
{
    let t0 = hmac_blake2s(key, input);
    let (t1, t2, _) = kdf3_spec(key, input);
    lemma_hmac_len(met, t0, seq![1u8]);
    lemma_hmac_len(met, t0, t1 + seq![2u8]);
    lemma_hmac_len(met, t0, t2 + seq![3u8]);
}

/// Every derived key binds the key and the input that it was derived from.
pub proof fn law_derived_keys_bind(
    met: Set<Seq<u8>>,
    a: Seq<u8>,
    c: Seq<u8>,
    b: Seq<u8>,
    d: Seq<u8>,
)
    requires
        told_apart(met),
        a.len() == b.len(),
        kdf_met(met, a, c),
        kdf_met(met, b, d),
    ensures
        kdf1_spec(a, c) == kdf1_spec(b, d) ==> a == b && c == d,
        kdf2_spec(a, c).0 == kdf2_spec(b, d).0 ==> a == b && c == d,
        kdf2_spec(a, c).1 == kdf2_spec(b, d).1 ==> a == b && c == d,
        kdf3_spec(a, c).0 == kdf3_spec(b, d).0 ==> a == b && c == d,
        kdf3_spec(a, c).1 == kdf3_spec(b, d).1 ==> a == b && c == d,
        kdf3_spec(a, c).2 == kdf3_spec(b, d).2 ==> a == b && c == d,
        // keys of different places differ
        kdf2_spec(a, c).0 != kdf2_spec(b, d).1,
        kdf3_spec(a, c).0 != kdf3_spec(b, d).2,
        kdf3_spec(a, c).1 != kdf3_spec(b, d).2,
{
    let (x, y) = (hmac_blake2s(a, c), hmac_blake2s(b, d));
    let (x1, x2, x3) = kdf3_spec(a, c);
    let (y1, y2, y3) = kdf3_spec(b, d);
    lemma_hmac_len(met, a, c);
    lemma_hmac_len(met, b, d);
    lemma_kdf_len(met, a, c);
    lemma_kdf_len(met, b, d);
    if x1 == y1 {
        lemma_hmac(met, x, seq![1u8], y, seq![1u8]);
    }
    if x2 == y2 {
        lemma_hmac(met, x, x1 + seq![2u8], y, y1 + seq![2u8]);
    }
    if x3 == y3 {
        lemma_hmac(met, x, x2 + seq![3u8], y, y2 + seq![3u8]);
    }
    if x == y {
        lemma_hmac(met, a, c, b, d);
    }
    if x1 == y2 {
        lemma_hmac(met, x, seq![1u8], y, y1 + seq![2u8]);
        assert(seq![1u8].len() == 1);
    }
    if x1 == y3 {
        lemma_hmac(met, x, seq![1u8], y, y2 + seq![3u8]);
        assert(seq![1u8].len() == 1);
    }
    if x2 == y3 {
        lemma_hmac(met, x, x1 + seq![2u8], y, y2 + seq![3u8]);
        lemma_joined(x1, seq![2u8], y2, seq![3u8]);
        assert(seq![2u8][0] == seq![3u8][0]);
    }
}

/// An expanded key binds the salt, the secret and the purpose.
pub proof fn law_expanded_keys_bind(
    met: Set<Seq<u8>>,
    salt: Seq<u8>,
    ikm: Seq<u8>,
    info: Seq<u8>,
    salt2: Seq<u8>,
    ikm2: Seq<u8>,
    info2: Seq<u8>,
)
    requires
        told_apart(met),
        salt.len() == salt2.len(),
        hkdf_met(met, salt, ikm, info),
        hkdf_met(met, salt2, ikm2, info2),
        hkdf_blake2s(salt, ikm, info) == hkdf_blake2s(salt2, ikm2, info2),
    ensures
        salt == salt2,
        ikm == ikm2,
        info == info2,
{
    let (x, y) = (hmac_blake2s(salt, ikm), hmac_blake2s(salt2, ikm2));
    lemma_hmac_len(met, salt, ikm);
    lemma_hmac_len(met, salt2, ikm2);
    lemma_hmac(met, x, info + seq![1u8], y, info2 + seq![1u8]);
    lemma_joined_end(info, seq![1u8], info2, seq![1u8]);
    lemma_hmac(met, salt, ikm, salt2, ikm2);
}

/// No two different ones of these keys and data have the same tag.
pub open spec fn tags_told_apart(met: Set<(Seq<u8>, Seq<u8>)>) -> bool {
    forall|a: (Seq<u8>, Seq<u8>), b: (Seq<u8>, Seq<u8>)| #[trigger]
        met.contains(a) && #[trigger] met.contains(b) && blake2s_mac(a.0, a.1) == blake2s_mac(
            b.0,
            b.1,
        ) ==> a == b
}

/// Numbers of the same width have the same bytes only if they are the same.
pub proof fn lemma_le_bytes_bind(x: nat, y: nat, n: nat)
    requires
        x < crate::bytes::pow256(n),
        y < crate::bytes::pow256(n),
        le_bytes(x, n) == le_bytes(y, n),
    ensures
        x == y,
{
    lemma_le_value_of_bytes(x, n);
    lemma_le_value_of_bytes(y, n);
}

/// The bytes of two unsigned numbers of 32 and 64 bits.
pub proof fn lemma_le_words(a: u32, b: u64)
    ensures
        le_bytes(a as nat, 4).len() == 4,
        le_bytes(b as nat, 8).len() == 8,
        (a as nat) < crate::bytes::pow256(4),
        (b as nat) < crate::bytes::pow256(8),
{
    lemma_pow256();
    lemma_le_bytes_len(a as nat, 4);
    lemma_le_bytes_len(b as nat, 8);
}

} // verus!
