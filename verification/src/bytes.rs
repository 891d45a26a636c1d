//! Byte strings: integers in little and big endian, fixed-size pieces, concatenation.

use vstd::prelude::*;

verus! {

/// The `n` low-order bytes of `x`, least significant first.
pub open spec fn le_bytes(x: nat, n: nat) -> Seq<u8>
    decreases n,
{
    if n == 0 {
        Seq::empty()
    } else {
        seq![(x % 256) as u8] + le_bytes(x / 256, (n - 1) as nat)
    }
}

/// The number whose bytes, least significant first, are `s`.
pub open spec fn le_value(s: Seq<u8>) -> nat
    decreases s.len(),
{
    if s.len() == 0 {
        0
    } else {
        s[0] as nat + 256 * le_value(s.drop_first())
    }
}

/// The `n` low-order bytes of `x`, most significant first.
pub open spec fn be_bytes(x: nat, n: nat) -> Seq<u8>
    decreases n,
{
    if n == 0 {
        Seq::empty()
    } else {
        be_bytes(x / 256, (n - 1) as nat).push((x % 256) as u8)
    }
}

/// The number whose bytes, most significant first, are `s`.
pub open spec fn be_value(s: Seq<u8>) -> nat
    decreases s.len(),
{
    if s.len() == 0 {
        0
    } else {
        256 * be_value(s.drop_last()) + s.last() as nat
    }
}

/// `n` zero bytes.
pub open spec fn zeros(n: nat) -> Seq<u8> {
    Seq::new(n, |i: int| 0u8)
}

/// 256 to the power `n`.
pub open spec fn pow256(n: nat) -> nat
    decreases n,
{
    if n == 0 {
        1
    } else {
        256 * pow256((n - 1) as nat)
    }
}

pub proof fn lemma_le_bytes_len(x: nat, n: nat)
    ensures
        le_bytes(x, n).len() == n,
    decreases n,
{
    if n > 0 {
        lemma_le_bytes_len(x / 256, (n - 1) as nat);
    }
}

pub proof fn lemma_be_bytes_len(x: nat, n: nat)
    ensures
        be_bytes(x, n).len() == n,
    decreases n,
{
    if n > 0 {
        lemma_be_bytes_len(x / 256, (n - 1) as nat);
    }
}

/// Reading back what was written, for every number that fits.
pub proof fn lemma_le_value_of_bytes(x: nat, n: nat)
    requires
        x < pow256(n),
    ensures
        le_value(le_bytes(x, n)) == x,
        le_bytes(x, n).len() == n,
    decreases n,
{
    if n > 0 {
        lemma_le_value_of_bytes(x / 256, (n - 1) as nat);
        let s = le_bytes(x, n);
        assert(s.drop_first() =~= le_bytes(x / 256, (n - 1) as nat));
    }
}

/// Reading back what was written, for every number that fits.
pub proof fn lemma_be_value_of_bytes(x: nat, n: nat)
    requires
        x < pow256(n),
    ensures
        be_value(be_bytes(x, n)) == x,
        be_bytes(x, n).len() == n,
    decreases n,
{
    if n > 0 {
        lemma_be_value_of_bytes(x / 256, (n - 1) as nat);
        let s = be_bytes(x, n);
        assert(s.drop_last() =~= be_bytes(x / 256, (n - 1) as nat));
    }
}

pub proof fn lemma_le_value_bound(s: Seq<u8>)
    ensures
        le_value(s) < pow256(s.len()),
    decreases s.len(),
{
    if s.len() > 0 {
        lemma_le_value_bound(s.drop_first());
    }
}

pub proof fn lemma_be_value_bound(s: Seq<u8>)
    ensures
        be_value(s) < pow256(s.len()),
    decreases s.len(),
{
    if s.len() > 0 {
        lemma_be_value_bound(s.drop_last());
    }
}

/// Writing back what was read.
pub proof fn lemma_le_bytes_of_value(s: Seq<u8>)
    ensures
        le_bytes(le_value(s), s.len()) == s,
    decreases s.len(),
{
    if s.len() > 0 {
        lemma_le_bytes_of_value(s.drop_first());
        assert(le_value(s) % 256 == s[0] as nat);
        assert(le_value(s) / 256 == le_value(s.drop_first()));
        assert(seq![s[0]] + s.drop_first() =~= s);
    } else {
        assert(s =~= Seq::empty());
    }
}

/// Writing back what was read.
pub proof fn lemma_be_bytes_of_value(s: Seq<u8>)
    ensures
        be_bytes(be_value(s), s.len()) == s,
    decreases s.len(),
{
    if s.len() > 0 {
        lemma_be_bytes_of_value(s.drop_last());
        assert(be_value(s) % 256 == s.last() as nat);
        assert(be_value(s) / 256 == be_value(s.drop_last()));
        assert(s.drop_last().push(s.last()) =~= s);
    } else {
        assert(s =~= Seq::empty());
    }
}

pub proof fn lemma_pow256()
    ensures
        pow256(0) == 1,
        pow256(1) == 0x100,
        pow256(2) == 0x1_0000,
        pow256(4) == 0x1_0000_0000,
        pow256(8) == 0x1_0000_0000_0000_0000,
        pow256(16) == 0x1_0000_0000_0000_0000_0000_0000_0000_0000nat,
{
    reveal_with_fuel(pow256, 17);
}

proof fn lemma_pow256_monotone(a: nat, b: nat)
    requires
        a <= b,
    ensures
        0 < pow256(a) <= pow256(b),
    decreases b,
{
    if a < b {
        lemma_pow256_monotone(a, (b - 1) as nat);
    } else if a > 0 {
        lemma_pow256_monotone((a - 1) as nat, (b - 1) as nat);
    }
}

/// The bytes of `s` from `at` on, as an array.
pub fn take<const N: usize>(s: &[u8], at: usize) -> (r: [u8; N])
    requires
        at + N <= s@.len(),
    ensures
        r@ == s@.subrange(at as int, at + N),
{
    let mut r: [u8; N] = [0u8; N];
    let mut i: usize = 0;
    while i < N
        invariant
            i <= N,
            at + N <= s.len(),
            forall|j: int| 0 <= j < i ==> r@[j] == s@[at + j],
        decreases N - i,
    {
        r[i] = s[at + i];
        i += 1;
    }
    assert(r@ =~= s@.subrange(at as int, at + N));
    r
}

/// The number that the bytes hold, least significant first.
pub fn read_le(s: &[u8]) -> (r: u64)
    requires
        s@.len() <= 8,
    ensures
        r == le_value(s@),
{
    let mut r: u64 = 0;
    let mut i: usize = s.len();
    assert(s@.skip(i as int) =~= Seq::empty());
    while i > 0
        invariant
            i <= s@.len() <= 8,
            r == le_value(s@.skip(i as int)),
        decreases i,
    {
        proof {
            let t = s@.skip(i - 1);
            assert(t.drop_first() =~= s@.skip(i as int));
            lemma_le_value_bound(t);
            lemma_pow256_monotone(t.len(), 8);
            lemma_pow256();
        }
        i -= 1;
        r = r * 256 + s[i] as u64;
    }
    assert(s@.skip(0) =~= s@);
    r
}

/// The number that the bytes hold, most significant first.
pub fn read_be(s: &[u8]) -> (r: u128)
    requires
        s@.len() <= 16,
    ensures
        r == be_value(s@),
{
    let mut r: u128 = 0;
    let mut i: usize = 0;
    assert(s@.take(0) =~= Seq::empty());
    while i < s.len()
        invariant
            i <= s@.len() <= 16,
            r == be_value(s@.take(i as int)),
        decreases s@.len() - i,
    {
        proof {
            let t = s@.take(i + 1);
            assert(t.drop_last() =~= s@.take(i as int));
            lemma_be_value_bound(t);
            lemma_pow256_monotone(t.len(), 16);
            lemma_pow256();
        }
        r = r * 256 + s[i] as u128;
        i += 1;
    }
    assert(s@.take(s@.len() as int) =~= s@);
    r
}

/// The low-order bytes of `x`, least significant first.
pub fn write_le<const N: usize>(x: u64) -> (r: [u8; N])
    ensures
        r@ == le_bytes(x as nat, N as nat),
{
    let mut r: [u8; N] = [0u8; N];
    let mut rest: u64 = x;
    let mut i: usize = 0;
    assert(r@.take(0) + le_bytes(x as nat, N as nat) =~= le_bytes(x as nat, N as nat));
    while i < N
        invariant
            i <= N,
            r@.take(i as int) + le_bytes(rest as nat, (N - i) as nat) == le_bytes(
                x as nat,
                N as nat,
            ),
        decreases N - i,
    {
        let ghost before = r@;
        r[i] = (rest % 256) as u8;
        proof {
            let tail = le_bytes(rest as nat / 256, (N - i - 1) as nat);
            assert(r@.take(i + 1) + tail =~= before.take(i as int) + (seq![(rest % 256) as u8]
                + tail));
        }
        rest = rest / 256;
        i += 1;
    }
    assert(r@.take(N as int) + le_bytes(rest as nat, 0) =~= r@);
    r
}

/// The low-order bytes of `x`, most significant first.
pub fn write_be<const N: usize>(x: u128) -> (r: [u8; N])
    ensures
        r@ == be_bytes(x as nat, N as nat),
{
    let mut r: [u8; N] = [0u8; N];
    let mut rest: u128 = x;
    let mut i: usize = N;
    assert(be_bytes(x as nat, N as nat) + r@.skip(N as int) =~= be_bytes(x as nat, N as nat));
    while i > 0
        invariant
            i <= N,
            be_bytes(rest as nat, i as nat) + r@.skip(i as int) == be_bytes(x as nat, N as nat),
        decreases i,
    {
        let ghost before = r@;
        i -= 1;
        r[i] = (rest % 256) as u8;
        proof {
            let head = be_bytes(rest as nat / 256, i as nat);
            assert(head + r@.skip(i as int) =~= head.push((rest % 256) as u8) + before.skip(i + 1));
        }
        rest = rest / 256;
    }
    assert(be_bytes(rest as nat, 0) + r@.skip(0) =~= r@);
    r
}

/// `a` followed by `b`.
pub fn join(a: &[u8], b: &[u8]) -> (r: Vec<u8>)
    ensures
        r@ == a@ + b@,
{
    let mut r: Vec<u8> = Vec::new();
    r.extend_from_slice(a);
    r.extend_from_slice(b);
    assert(r@ =~= a@ + b@);
    r
}

/// `a`, `b` and `c`, one after the other.
pub fn join3(a: &[u8], b: &[u8], c: &[u8]) -> (r: Vec<u8>)
    ensures
        r@ == a@ + b@ + c@,
{
    let mut r = join(a, b);
    r.extend_from_slice(c);
    assert(r@ =~= a@ + b@ + c@);
    r
}

/// `a`, `b`, `c` and `d`, one after the other.
pub fn join4(a: &[u8], b: &[u8], c: &[u8], d: &[u8]) -> (r: Vec<u8>)
    ensures
        r@ == a@ + b@ + c@ + d@,
{
    let mut r = join3(a, b, c);
    r.extend_from_slice(d);
    assert(r@ =~= a@ + b@ + c@ + d@);
    r
}

/// Are the two byte strings the same?
pub fn same(a: &[u8], b: &[u8]) -> (r: bool)
    ensures
        r == (a@ == b@),
{
    if a.len() != b.len() {
        return false;
    }
    let mut i: usize = 0;
    while i < a.len()
        invariant
            i <= a@.len() == b@.len(),
            forall|j: int| 0 <= j < i ==> a@[j] == b@[j],
        decreases a@.len() - i,
    {
        if a[i] != b[i] {
            return false;
        }
        i += 1;
    }
    assert(a@ =~= b@);
    true
}

/// The least significant byte comes first in one order and last in the other: each byte is
/// the digit of its place, to the base 256.
pub proof fn law_byte_order(x: nat, n: nat, i: nat)
    requires
        i < n,
    ensures
        le_bytes(x, n).len() == n,
        be_bytes(x, n).len() == n,
        le_bytes(x, n)[i as int] == (x / pow256(i)) % 256,
        be_bytes(x, n)[n - 1 - i] == (x / pow256(i)) % 256,
    decreases n,
{
    lemma_le_bytes_len(x, n);
    lemma_be_bytes_len(x, n);
    lemma_le_bytes_len(x / 256, (n - 1) as nat);
    lemma_be_bytes_len(x / 256, (n - 1) as nat);
    if i > 0 {
        let m = (i - 1) as nat;
        law_byte_order(x / 256, (n - 1) as nat, m);
        lemma_pow256_monotone(0, m);
        vstd::arithmetic::div_mod::lemma_div_denominator(x as int, 256, pow256(m) as int);
        assert(le_bytes(x, n)[i as int] == le_bytes(x / 256, (n - 1) as nat)[m as int]);
        assert(be_bytes(x, n)[n - 1 - i] == be_bytes(x / 256, (n - 1) as nat)[n - 2 - m]);
    } else {
        lemma_pow256();
        assert(x / pow256(0) == x);
    }
}

/// The value of bytes is the sum of its digits, each by its place.
pub proof fn law_byte_values(s: Seq<u8>, b: u8)
    ensures
        le_value(seq![b] + s) == b + 256 * le_value(s),
        be_value(s.push(b)) == 256 * be_value(s) + b,
        le_value(Seq::empty()) == 0,
        be_value(Seq::empty()) == 0,
{
    assert((seq![b] + s).drop_first() =~= s);
    assert(s.push(b).drop_last() =~= s);
}

} // verus!
