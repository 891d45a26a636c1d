//! Proofs that a side knows the rendezvous key.
//!
//! A secret of the handshake and the rendezvous key select a target among the numbers from
//! 1 to 10000. The proof hides the target: it is moved on by a step, and the number it
//! arrives at is masked with 99 others and with the key.

use crate::binding::{lemma_hash, lemma_joined, told_apart};
use crate::bytes::{le_value, lemma_le_value_bound, lemma_pow256, read_le, take, write_le, zeros};
use crate::crypto::{blake2s, ct_eq, hash2, hash3};
use crate::hybrid_v23::messages::RiProof;
use crate::types::HandshakeError;
use vstd::prelude::*;

verus! {

/// "hybrid-wireguard-ri-v2.3"
pub const LABEL_RI: [u8; 24] = [
    0x68, 0x79, 0x62, 0x72, 0x69, 0x64, 0x2d, 0x77, 0x69, 0x72, 0x65, 0x67, 0x75, 0x61, 0x72, 0x64,
    0x2d, 0x72, 0x69, 0x2d, 0x76, 0x32, 0x2e, 0x33,
];

/// The bytes of a proof that are not in use.
pub const RESERVED: [u8; 6] = [0, 0, 0, 0, 0, 0];

/// How far the clocks of the two sides may be apart, in seconds.
pub const MAX_CLOCK_SKEW: u64 = 120;

/// The first eight bytes of `s` as a number.
pub open spec fn head64(s: Seq<u8>) -> nat {
    le_value(s.subrange(0, 8))
}

/// The number that a secret and the key select, from 1 to 10000.
pub open spec fn target(ri_key: Seq<u8>, secret: Seq<u8>) -> int {
    (head64(blake2s(ri_key + secret)) % 10_000 + 1) as int
}

/// The number that lies `delta` steps after `target` on the circle from 1 to 10000.
pub open spec fn moved_on(target: int, delta: int) -> int {
    (target - 1 + delta) % 10_000 + 1
}

/// The key of an epoch: the configured one, else eight bytes from the root key.
pub open spec fn epoch_key(manual: Option<[u8; 8]>, k_ri: Seq<u8>) -> Seq<u8> {
    match manual {
        Some(key) => key@,
        None => blake2s(LABEL_RI@ + k_ri).subrange(0, 8),
    }
}

/// The secret that a proof is bound to.
pub open spec fn secret_spec(ri_key: Seq<u8>, ck: Seq<u8>, hs: Seq<u8>) -> Seq<u8> {
    blake2s(ri_key + ck + hs)
}

/// The exclusive or of the first `n` values that differ from `sigma`.
pub open spec fn mask(values: Seq<u64>, sigma: u64, n: nat) -> u64
    decreases values.len(),
{
    if n == 0 || values.len() == 0 {
        0
    } else if values[0] == sigma {
        mask(values.drop_first(), sigma, n)
    } else {
        values[0] ^ mask(values.drop_first(), sigma, (n - 1) as nat)
    }
}

/// The number that a proof hides.
pub open spec fn hidden(ri_key: Seq<u8>, proof: RiProof) -> u64 {
    (proof.f ^ (le_value(ri_key) as u64)) ^ proof.a
}

/// Is the proof right, at the time `now`?
pub open spec fn valid(ri_key: Seq<u8>, secret: Seq<u8>, proof: RiProof, now: u64) -> bool {
    &&& proof.reserved@ == zeros(6)
    &&& now - proof.ts <= MAX_CLOCK_SKEW
    &&& proof.ts - now <= MAX_CLOCK_SKEW
    &&& 0 < proof.delta < 10_000
    &&& 1 <= hidden(ri_key, proof) <= 10_000
    &&& hidden(ri_key, proof) == moved_on(target(ri_key, secret), proof.delta as int)
}

/// The number between 1 and 10000 that a draw offers.
pub open spec fn candidate_of(draw: u32) -> u64 {
    (draw % 10_000 + 1) as u64
}

/// Numbers from 1 to 10000, each drawn once, in the order of the draws.
pub struct Decoys {
    values: Vec<u64>,
}

impl Decoys {
    pub closed spec fn view(&self) -> Seq<u64> {
        self.values@
    }

    /// At most a hundred different numbers from 1 to 10000.
    pub open spec fn wf(&self) -> bool {
        &&& self@.len() <= 100
        &&& forall|i: int| 0 <= i < self@.len() ==> 1 <= #[trigger] self@[i] <= 10_000
        &&& forall|i: int, j: int| 0 <= i < j < self@.len() ==> self@[i] != self@[j]
    }

    /// Enough numbers to choose 99 that differ from any given one.
    pub open spec fn complete(&self) -> bool {
        self@.len() == 100
    }

    pub fn new() -> (r: Self)
        ensures
            r.wf(),
            r@ == Seq::<u64>::empty(),
    {
        Decoys { values: Vec::new() }
    }

    pub fn is_complete(&self) -> (r: bool)
        ensures
            r == self.complete(),
    {
        self.values.len() == 100
    }

    /// Takes in a random draw, unless its number has been drawn before or the numbers are
    /// complete.
    pub fn offer(&mut self, draw: u32)
        requires
            old(self).wf(),
        ensures
            final(self).wf(),
            ({
                let candidate = candidate_of(draw);
                final(self)@ == if old(self).complete() || old(self)@.contains(candidate) {
                    old(self)@
                } else {
                    old(self)@.push(candidate)
                }
            }),
    {
        let candidate: u64 = (draw % 10_000 + 1) as u64;
        if self.values.len() == 100 {
            return;
        }
        let mut i: usize = 0;
        while i < self.values.len()
            invariant
                i <= self.values@.len(),
                *self == *old(self),
                self.wf(),
                candidate == (draw % 10_000 + 1) as u64,
                forall|j: int| 0 <= j < i ==> self.values@[j] != candidate,
            decreases self.values@.len() - i,
        {
            if self.values[i] == candidate {
                assert(old(self)@.contains(candidate));
                return;
            }
            i += 1;
        }
        self.values.push(candidate);
    }
}

/// The secret that a proof is bound to.
pub fn ri_secret(ri_key: &[u8; 8], ck: &[u8; 32], hs: &[u8; 32]) -> (r: [u8; 32])
    ensures
        r@ == secret_spec(ri_key@, ck@, hs@),
{
    hash3(ri_key, ck, hs)
}

/// The number that a secret and the key select.
pub fn ri_target(ri_key: &[u8; 8], secret: &[u8; 32]) -> (r: u64)
    ensures
        r == target(ri_key@, secret@),
        1 <= r <= 10_000,
{
    let digest = hash2(ri_key, secret);
    let head: [u8; 8] = take(&digest, 0);
    read_le(&head) % 10_000 + 1
}

/// The key of an epoch: the configured one, else eight bytes from the root key.
pub fn ri_key_for_epoch(manual: Option<[u8; 8]>, k_ri: &[u8; 32]) -> (r: [u8; 8])
    ensures
        r@ == epoch_key(manual, k_ri@),
{
    match manual {
        Some(key) => key,
        None => {
            let digest = hash2(&LABEL_RI, k_ri);
            take(&digest, 0)
        },
    }
}

/// A proof for `secret`. `draw` selects the step, `decoys` the mask; `ts` is the time in
/// seconds.
pub fn generate_ri_proof(
    draw: u32,
    decoys: &Decoys,
    ts: u64,
    ri_key: &[u8; 8],
    secret: &[u8; 32],
) -> (r: RiProof)
    requires
        decoys.wf(),
        decoys.complete(),
    ensures
        r == generated(draw, decoys@, ts, ri_key@, secret@),
{
    let target = ri_target(ri_key, secret);
    let delta: u16 = (draw % 9_999 + 1) as u16;
    let sigma: u64 = ((target - 1 + delta as u64) % 10_000) + 1;
    let mut a: u64 = 0;
    let mut count: usize = 0;
    let mut i: usize = 0;
    assert(decoys@.skip(0) =~= decoys@);
    assert(forall|m: u64| #[trigger] (0u64 ^ m) == m) by (bit_vector);
    while count < 99 && i < decoys.values.len()
        invariant
            i <= decoys.values@.len(),
            count <= 99,
            decoys@ == decoys.values@,
            a ^ mask(decoys@.skip(i as int), sigma, (99 - count) as nat) == mask(decoys@, sigma, 99),
        decreases decoys.values@.len() - i,
    {
        let candidate: u64 = decoys.values[i];
        proof {
            let rest = decoys@.skip(i as int);
            assert(rest.drop_first() =~= decoys@.skip(i + 1));
            let m = mask(decoys@.skip(i + 1), sigma, (98 - count) as nat);
            assert(a ^ (candidate ^ m) == (a ^ candidate) ^ m) by (bit_vector);
        }
        if candidate != sigma {
            a = a ^ candidate;
            count += 1;
        }
        i += 1;
    }
    proof {
        let rest = decoys@.skip(i as int);
        assert(mask(rest, sigma, (99 - count) as nat) == 0);
        assert(a ^ 0 == a) by (bit_vector);
        lemma_le_value_bound(ri_key@);
        lemma_pow256();
    }
    let f: u64 = read_le(ri_key) ^ (a ^ sigma);
    RiProof { f, a, delta, ts, reserved: RESERVED }
}

/// The proof for `secret` with the given draws.
pub open spec fn generated(
    draw: u32,
    decoys: Seq<u64>,
    ts: u64,
    ri_key: Seq<u8>,
    secret: Seq<u8>,
) -> RiProof {
    let delta = draw % 9_999 + 1;
    let sigma = moved_on(target(ri_key, secret), delta as int) as u64;
    let a = mask(decoys, sigma, 99);
    RiProof {
        f: (le_value(ri_key) as u64) ^ (a ^ sigma),
        a,
        delta: delta as u16,
        ts,
        reserved: RESERVED,
    }
}

/// Accepts the proof if it is right at the time `now`, and reports `err` otherwise.
pub fn verify_ri_proof(
    ri_key: &[u8; 8],
    secret: &[u8; 32],
    proof: &RiProof,
    now: u64,
    err: HandshakeError,
) -> (r: Result<(), HandshakeError>)
    ensures
        r == (if valid(ri_key@, secret@, *proof, now) {
            Ok::<(), HandshakeError>(())
        } else {
            Err(err)
        }),
{
    assert(RESERVED@ =~= zeros(6));
    if !ct_eq(&proof.reserved, &RESERVED) {
        return Err(err);
    }
    let skew: u64 = if now >= proof.ts {
        now - proof.ts
    } else {
        proof.ts - now
    };
    if skew > MAX_CLOCK_SKEW {
        return Err(err);
    }
    let delta: u16 = proof.delta;
    if delta == 0 || delta >= 10_000 {
        return Err(err);
    }
    proof {
        lemma_le_value_bound(ri_key@);
        lemma_pow256();
    }
    let sigma: u64 = (proof.f ^ read_le(ri_key)) ^ proof.a;
    if !(1 <= sigma && sigma <= 10_000) {
        return Err(err);
    }
    let recovered: u64 = ((sigma - 1 + 10_000 - delta as u64) % 10_000) + 1;
    let expected = ri_target(ri_key, secret);
    let recovered_bytes: [u8; 8] = write_le(recovered);
    let expected_bytes: [u8; 8] = write_le(expected);
    proof {
        lemma_steps(expected as int, sigma as int, delta as int);
        crate::bytes::lemma_le_value_of_bytes(recovered as nat, 8);
        crate::bytes::lemma_le_value_of_bytes(expected as nat, 8);
    }
    if !ct_eq(&recovered_bytes, &expected_bytes) {
        return Err(err);
    }
    Ok(())
}

/// Stepping back undoes stepping on.
proof fn lemma_steps(target: int, sigma: int, delta: int)
    requires
        1 <= target <= 10_000,
        1 <= sigma <= 10_000,
        0 < delta < 10_000,
    ensures
        (sigma - 1 + 10_000 - delta) % 10_000 + 1 == target <==> sigma == moved_on(target, delta),
{
}

/// A generated proof is accepted while the clocks are close enough.
pub proof fn law_generated_is_valid(
    draw: u32,
    decoys: Seq<u64>,
    ts: u64,
    ri_key: Seq<u8>,
    secret: Seq<u8>,
    now: u64,
)
    requires
        now - ts <= MAX_CLOCK_SKEW,
        ts - now <= MAX_CLOCK_SKEW,
    ensures
        valid(ri_key, secret, generated(draw, decoys, ts, ri_key, secret), now),
{
    let proof_made = generated(draw, decoys, ts, ri_key, secret);
    let k = le_value(ri_key) as u64;
    let sigma = moved_on(target(ri_key, secret), (draw % 9_999 + 1) as int) as u64;
    let a = proof_made.a;
    assert(((k ^ (a ^ sigma)) ^ k) ^ a == sigma) by (bit_vector);
    assert(proof_made.reserved@ =~= zeros(6));
}

/// A target lies between 1 and 10000, and moving on stays there. Moving on by a step of less
/// than 10000 leads elsewhere, by different steps to different places, and back by the rest.
pub proof fn law_steps_are_told_apart(ri_key: Seq<u8>, secret: Seq<u8>, t: int, a: int, b: int)
    requires
        1 <= t <= 10_000,
        0 < a < 10_000,
        0 < b < 10_000,
    ensures
        1 <= target(ri_key, secret) <= 10_000,
        1 <= moved_on(t, a) <= 10_000,
        moved_on(t, a) != t,
        moved_on(t, a) == moved_on(t, b) ==> a == b,
        moved_on(moved_on(t, a), 10_000 - a) == t,
{
}

/// A proof is valid for one target: whoever has another one, from another secret or key, does
/// not accept it.
pub proof fn law_proof_shows_the_target(
    ri_key: Seq<u8>,
    secret: Seq<u8>,
    other: Seq<u8>,
    proof_made: RiProof,
    now: u64,
)
    requires
        target(ri_key, secret) != target(ri_key, other),
        valid(ri_key, secret, proof_made, now),
    ensures
        !valid(ri_key, other, proof_made, now),
{
    let (t, u) = (target(ri_key, secret), target(ri_key, other));
    let d = proof_made.delta as int;
    if valid(ri_key, other, proof_made, now) {
        lemma_moved_binds(t, u, d);
    }
}

proof fn lemma_moved_binds(t: int, u: int, d: int)
    requires
        1 <= t <= 10_000,
        1 <= u <= 10_000,
        0 < d < 10_000,
        moved_on(t, d) == moved_on(u, d),
    ensures
        t == u,
{
}

/// No part of a proof can be changed: a proof with another masked number, another mask or
/// another step, the rest being the same, is not valid. Nor is one whose unused bytes are
/// not zero, or whose time is more than two minutes off.
pub proof fn law_proofs_cannot_be_altered(
    ri_key: Seq<u8>,
    secret: Seq<u8>,
    a: RiProof,
    f: u64,
    mask_value: u64,
    delta: u16,
    reserved: [u8; 6],
    ts: u64,
    now: u64,
)
    requires
        valid(ri_key, secret, a, now),
    ensures
        f != a.f ==> !valid(ri_key, secret, RiProof { f, ..a }, now),
        mask_value != a.a ==> !valid(ri_key, secret, RiProof { a: mask_value, ..a }, now),
        delta != a.delta ==> !valid(ri_key, secret, RiProof { delta, ..a }, now),
        reserved@ != zeros(6) ==> !valid(ri_key, secret, RiProof { reserved, ..a }, now),
        ts + 120 < now || now + 120 < ts ==> !valid(ri_key, secret, RiProof { ts, ..a }, now),
        ts + 120 >= now && now + 120 >= ts ==> valid(ri_key, secret, RiProof { ts, ..a }, now),
{
    let k = le_value(ri_key) as u64;
    let (g, m) = (a.f, a.a);
    assert((f ^ k) ^ m == (g ^ k) ^ m ==> f == g) by (bit_vector);
    assert((g ^ k) ^ mask_value == (g ^ k) ^ m ==> mask_value == m) by (bit_vector);
    if 0 < delta < 10_000 {
        law_steps_are_told_apart(
            ri_key,
            secret,
            target(ri_key, secret),
            a.delta as int,
            delta as int,
        );
    }
}

/// A generated proof carries the time and a step between 1 and 9999 that the draw decides, and
/// holds the number that the step leads to, masked.
pub proof fn law_generated_hides_the_target(
    draw: u32,
    decoys: Seq<u64>,
    ts: u64,
    ri_key: Seq<u8>,
    secret: Seq<u8>,
)
    ensures
        ({
            let made = generated(draw, decoys, ts, ri_key, secret);
            &&& made.ts == ts
            &&& 1 <= made.delta <= 9_999
            &&& made.delta == draw % 9_999 + 1
            &&& made.reserved@ == zeros(6)
            &&& hidden(ri_key, made) == moved_on(target(ri_key, secret), made.delta as int)
        }),
{
    law_generated_is_valid(draw, decoys, ts, ri_key, secret, ts);
}

/// The mask is made of the first numbers that are not the hidden one: it changes with each of
/// them, and the hidden number is left out of it.
pub proof fn law_mask_covers_the_others(values: Seq<u64>, sigma: u64, n: nat, i: int, v: u64)
    requires
        0 <= i < n <= values.len(),
        forall|j: int| 0 <= j < values.len() ==> values[j] != sigma,
        v != sigma,
    ensures
        mask(values.update(i, v), sigma, n) ^ v == mask(values, sigma, n) ^ values[i],
        mask(seq![sigma] + values, sigma, n) == mask(values, sigma, n),
    decreases values.len(),
{
    let rest = values.drop_first();
    let changed = values.update(i, v);
    assert((seq![sigma] + values).drop_first() =~= values);
    if i == 0 {
        assert(changed.drop_first() =~= rest);
        let m = mask(rest, sigma, (n - 1) as nat);
        let w = values[0];
        assert((v ^ m) ^ v == (w ^ m) ^ w) by (bit_vector);
    } else {
        assert(changed.drop_first() =~= rest.update(i - 1, v));
        assert forall|j: int| 0 <= j < rest.len() implies rest[j] != sigma by {
            assert(rest[j] == values[j + 1]);
        }
        law_mask_covers_the_others(rest, sigma, (n - 1) as nat, i - 1, v);
        let x = mask(rest.update(i - 1, v), sigma, (n - 1) as nat);
        let y = mask(rest, sigma, (n - 1) as nat);
        let (w, u) = (values[0], values[i]);
        assert(rest[i - 1] == u);
        assert(changed[0] == w);
        assert((w ^ x) ^ v == w ^ (x ^ v)) by (bit_vector);
        assert((w ^ y) ^ u == w ^ (y ^ u)) by (bit_vector);
    }
}

/// The secret of a proof binds the rendezvous key, the chaining key and the transcript.
pub proof fn law_proof_secret_binds(
    met: Set<Seq<u8>>,
    ri_key: Seq<u8>,
    ck: Seq<u8>,
    hs: Seq<u8>,
    ri_key2: Seq<u8>,
    ck2: Seq<u8>,
    hs2: Seq<u8>,
)
    requires
        told_apart(met),
        ri_key.len() == ri_key2.len(),
        ck.len() == ck2.len(),
        met.contains(ri_key + ck + hs),
        met.contains(ri_key2 + ck2 + hs2),
        secret_spec(ri_key, ck, hs) == secret_spec(ri_key2, ck2, hs2),
    ensures
        ri_key == ri_key2,
        ck == ck2,
        hs == hs2,
{
    lemma_hash(met, ri_key + ck + hs, ri_key2 + ck2 + hs2);
    lemma_joined(ri_key + ck, hs, ri_key2 + ck2, hs2);
    lemma_joined(ri_key, ck, ri_key2, ck2);
}

/// A key that was set by hand is the one that is used, in every epoch; without one the key
/// comes from the root of the epoch alone.
pub proof fn law_manual_key_wins(manual: [u8; 8], k_ri: Seq<u8>, other: Seq<u8>)
    ensures
        epoch_key(Some(manual), k_ri) == manual@,
        epoch_key(Some(manual), k_ri) == epoch_key(Some(manual), other),
        epoch_key(None, k_ri) == blake2s(LABEL_RI@ + k_ri).take(8),
{
}

/// No two different ones of these inputs select the same target.
pub open spec fn targets_told_apart(met: Set<Seq<u8>>) -> bool {
    forall|a: Seq<u8>, b: Seq<u8>| #[trigger]
        met.contains(a) && #[trigger] met.contains(b) && le_value(blake2s(a).subrange(0, 8))
            % 10_000 == le_value(blake2s(b).subrange(0, 8)) % 10_000 ==> a == b
}

/// The target binds the rendezvous key and the secret, as far as 10000 numbers can.
pub proof fn law_targets_bind(
    met: Set<Seq<u8>>,
    ri_key: Seq<u8>,
    secret: Seq<u8>,
    other_key: Seq<u8>,
    other: Seq<u8>,
)
    requires
        targets_told_apart(met),
        ri_key.len() == other_key.len(),
        met.contains(ri_key + secret),
        met.contains(other_key + other),
        target(ri_key, secret) == target(other_key, other),
    ensures
        ri_key == other_key,
        secret == other,
{
    let (a, b) = (ri_key + secret, other_key + other);
    assert(met.contains(a) && met.contains(b));
    lemma_joined(ri_key, secret, other_key, other);
}

/// A proof is accepted only by one whose secret selects the target that it was made for.
pub proof fn law_proof_is_for_its_secret(
    met: Set<Seq<u8>>,
    draw: u32,
    decoys: Seq<u64>,
    ts: u64,
    ri_key: Seq<u8>,
    secret: Seq<u8>,
    other: Seq<u8>,
    now: u64,
)
    requires
        targets_told_apart(met),
        met.contains(ri_key + secret),
        met.contains(ri_key + other),
        valid(ri_key, other, generated(draw, decoys, ts, ri_key, secret), now),
    ensures
        secret == other,
{
    let made = generated(draw, decoys, ts, ri_key, secret);
    law_generated_hides_the_target(draw, decoys, ts, ri_key, secret);
    lemma_moved_binds(target(ri_key, secret), target(ri_key, other), made.delta as int);
    law_targets_bind(met, ri_key, secret, ri_key, other);
}

/// What lies behind the numbers that are needed does not matter.
proof fn lemma_mask_end(values: Seq<u64>, sigma: u64, n: nat, i: int, v: u64)
    requires
        n <= i < values.len(),
        forall|j: int| 0 <= j < values.len() ==> values[j] != sigma,
        v != sigma,
    ensures
        mask(values.update(i, v), sigma, n) == mask(values, sigma, n),
    decreases values.len(),
{
    if n > 0 {
        let rest = values.drop_first();
        assert(values.update(i, v).drop_first() =~= rest.update(i - 1, v));
        assert forall|j: int| 0 <= j < rest.len() implies rest[j] != sigma by {
            assert(rest[j] == values[j + 1]);
        }
        lemma_mask_end(rest, sigma, (n - 1) as nat, i - 1, v);
    }
}

/// The number in a proof is masked with 99 others: the mask changes with each of the first 99
/// decoys, and with no further one.
pub proof fn law_proofs_are_masked_by_99(
    draw: u32,
    decoys: Seq<u64>,
    ts: u64,
    ri_key: Seq<u8>,
    secret: Seq<u8>,
    i: int,
    v: u64,
)
    requires
        decoys.len() == 100,
        0 <= i < 100,
        ({
            let sigma = hidden(ri_key, generated(draw, decoys, ts, ri_key, secret));
            &&& v != sigma
            &&& forall|j: int| 0 <= j < 100 ==> decoys[j] != sigma
        }),
    ensures
        ({
            let a = generated(draw, decoys, ts, ri_key, secret);
            let b = generated(draw, decoys.update(i, v), ts, ri_key, secret);
            &&& i < 99 ==> b.a ^ v == a.a ^ decoys[i]
            &&& i == 99 ==> b.a == a.a
            &&& a.f ^ a.a == b.f ^ b.a
        }),
{
    let k = le_value(ri_key) as u64;
    let sigma = moved_on(target(ri_key, secret), (draw % 9_999 + 1) as int) as u64;
    law_generated_hides_the_target(draw, decoys, ts, ri_key, secret);
    if i < 99 {
        law_mask_covers_the_others(decoys, sigma, 99, i, v);
    } else {
        lemma_mask_end(decoys, sigma, 99, i, v);
    }
    let x = mask(decoys, sigma, 99);
    let y = mask(decoys.update(i, v), sigma, 99);
    assert((k ^ (x ^ sigma)) ^ x == (k ^ (y ^ sigma)) ^ y) by (bit_vector);
}

/// Every number from 1 to 10000 can be offered, and no other, and each by every ten thousandth
/// draw.
pub proof fn law_candidates(draw: u32, v: u64)
    ensures
        1 <= candidate_of(draw) <= 10_000,
        1 <= v <= 10_000 ==> candidate_of((v - 1) as u32) == v,
        draw < u32::MAX - 10_000 ==> candidate_of((draw + 10_000) as u32) == candidate_of(draw),
{
}

} // verus!
