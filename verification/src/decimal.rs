//! Numbers and words in text.

use crate::hybrid_v23::runtime::ten_to;
use vstd::prelude::*;
use vstd::slice::slice_subrange;

verus! {

pub open spec fn is_digit(b: u8) -> bool {
    0x30 <= b <= 0x39
}

/// Does the text consist of digits?
pub open spec fn all_digits(s: Seq<u8>) -> bool {
    forall|i: int| 0 <= i < s.len() ==> is_digit(#[trigger] s[i])
}

/// The number that digits write.
pub open spec fn digits_value(s: Seq<u8>) -> nat
    decreases s.len(),
{
    if s.len() == 0 {
        0
    } else {
        10 * digits_value(s.drop_last()) + (s.last() - 0x30) as nat
    }
}

/// The digits of a text that may start with a plus sign.
pub open spec fn unsigned_digits(s: Seq<u8>) -> Seq<u8> {
    if s.len() > 0 && s[0] == 0x2b {
        s.drop_first()
    } else {
        s
    }
}

/// The number that a text writes: at least one digit after an optional plus sign, and at
/// most `max`.
pub open spec fn unsigned_value(s: Seq<u8>, max: nat) -> Option<nat> {
    let digits = unsigned_digits(s);
    if digits.len() > 0 && all_digits(digits) && digits_value(digits) <= max {
        Some(digits_value(digits))
    } else {
        None
    }
}

proof fn lemma_digits_value_grows(s: Seq<u8>, n: int)
    requires
        all_digits(s),
        0 <= n <= s.len(),
    ensures
        digits_value(s.take(n)) <= digits_value(s),
    decreases s.len(),
{
    if n < s.len() {
        let front = s.drop_last();
        assert(all_digits(front)) by {
            assert forall|i: int| 0 <= i < front.len() implies is_digit(#[trigger] front[i]) by {
                assert(front[i] == s[i]);
            }
        }
        lemma_digits_value_grows(front, n);
        assert(front.take(n) =~= s.take(n));
        assert(is_digit(s[s.len() - 1]));
    } else {
        assert(s.take(n) =~= s);
    }
}

/// Reads digits that write a number of at most `max`; no digits write zero.
fn read_digits(s: &[u8], max: u64) -> (r: Option<u64>)
    ensures
        match r {
            Some(n) => all_digits(s@) && digits_value(s@) == n && n <= max,
            None => !all_digits(s@) || digits_value(s@) > max,
        },
{
    let mut i: usize = 0;
    let mut value: u64 = 0;
    assert(s@.take(0) =~= Seq::empty());
    while i < s.len()
        invariant
            i <= s.len(),
            all_digits(s@.take(i as int)),
            value == digits_value(s@.take(i as int)),
            value <= max,
        decreases s.len() - i,
    {
        let b: u8 = s[i];
        let ghost done = s@.take(i as int);
        let ghost next = s@.take(i + 1);
        proof {
            assert(next.drop_last() =~= done);
            assert(next.last() == b);
            assert(s@[i as int] == b);
        }
        if b < 0x30 || b > 0x39 {
            return None;
        }
        let d: u64 = (b - 0x30) as u64;
        assert(all_digits(next)) by {
            assert forall|j: int| 0 <= j < next.len() implies is_digit(#[trigger] next[j]) by {
                if j < i {
                    assert(next[j] == done[j]);
                }
            }
        }
        if d > max || value > (max - d) / 10 {
            proof {
                assert(digits_value(next) > max);
                if all_digits(s@) {
                    lemma_digits_value_grows(s@, i + 1);
                }
            }
            return None;
        }
        value = value * 10 + d;
        i += 1;
    }
    assert(s@.take(i as int) =~= s@);
    Some(value)
}

/// Reads a number of at most `max`.
pub fn parse_unsigned(s: &[u8], max: u64) -> (r: Option<u64>)
    ensures
        match r {
            Some(n) => unsigned_value(s@, max as nat) == Some(n as nat),
            None => unsigned_value(s@, max as nat) is None,
        },
{
    let start: usize = if s.len() > 0 && s[0] == 0x2b {
        1
    } else {
        0
    };
    let digits = slice_subrange(s, start, s.len());
    assert(digits@ =~= unsigned_digits(s@));
    if digits.len() == 0 {
        return None;
    }
    read_digits(digits, max)
}

/// How many bytes there are before the decimal point.
pub open spec fn point(s: Seq<u8>) -> nat
    decreases s.len(),
{
    if s.len() == 0 || s[0] == 0x2e {
        0
    } else {
        1 + point(s.drop_first())
    }
}

/// The digits after the decimal point, if there is one.
pub open spec fn fraction(s: Seq<u8>) -> Seq<u8> {
    if point(s) < s.len() {
        s.skip(point(s) as int + 1)
    } else {
        Seq::empty()
    }
}

/// How many bytes there are before the mark of an exponent.
pub open spec fn exponent_mark(s: Seq<u8>) -> nat
    decreases s.len(),
{
    if s.len() == 0 || s[0] == 0x65 || s[0] == 0x45 {
        0
    } else {
        1 + exponent_mark(s.drop_first())
    }
}

/// Is there a minus sign?
pub open spec fn is_negative(s: Seq<u8>) -> bool {
    s.len() > 0 && s[0] == 0x2d
}

/// What follows the sign, if there is one.
pub open spec fn unsigned(s: Seq<u8>) -> Seq<u8> {
    if s.len() > 0 && (s[0] == 0x2d || s[0] == 0x2b) {
        s.drop_first()
    } else {
        s
    }
}

/// The exponent that a text writes: at least one digit after an optional sign.
pub open spec fn exponent_value(s: Seq<u8>) -> Option<int> {
    let digits = unsigned(s);
    if digits.len() == 0 || !all_digits(digits) {
        None
    } else if is_negative(s) {
        Some(-digits_value(digits))
    } else {
        Some(digits_value(digits) as int)
    }
}

/// The number that a text without a sign writes, as digits and the power of ten that they are
/// multiplied by: digits with or without a decimal point, and at least one of them, and
/// perhaps an exponent.
pub open spec fn number(s: Seq<u8>) -> Option<(Seq<u8>, int)> {
    let mark = exponent_mark(s);
    let exponent = if mark < s.len() {
        exponent_value(s.skip(mark as int + 1))
    } else {
        Some(0)
    };
    let mantissa = s.take(mark as int);
    let whole = mantissa.take(point(mantissa) as int);
    let part = fraction(mantissa);
    if all_digits(whole) && all_digits(part) && whole.len() + part.len() > 0 {
        match exponent {
            Some(e) => Some((whole + part, e - part.len())),
            None => None,
        }
    } else {
        None
    }
}

/// How many zeros there are at the start.
pub open spec fn leading_zeros(s: Seq<u8>) -> nat
    decreases s.len(),
{
    if s.len() == 0 || s[0] != 0x30 {
        0
    } else {
        1 + leading_zeros(s.drop_first())
    }
}

/// The first twelve of some digits, with zeros after them if there are fewer.
pub open spec fn twelve_digits(s: Seq<u8>) -> Seq<u8> {
    Seq::new(
        12,
        |i: int|
            if i < s.len() {
                s[i]
            } else {
                0x30
            },
    )
}

/// An amount: `lead` times ten to the power of `scale`, or more than any number.
#[derive(Clone, Copy, Debug, PartialEq, Eq, Structural)]
pub enum Amount {
    Finite { negative: bool, lead: u64, scale: i32 },
    Infinite { negative: bool },
}

/// Twelve digits of a number count; from 10^39 on it is infinite, and below 10^-45 zero.
pub open spec fn rounded(negative: bool, digits: Seq<u8>, scale: int) -> Amount {
    let significant = digits.skip(leading_zeros(digits) as int);
    let order = significant.len() + scale;
    if significant.len() == 0 || order < -44 {
        Amount::Finite { negative, lead: 0, scale: 0 }
    } else if order > 39 {
        Amount::Infinite { negative }
    } else {
        Amount::Finite {
            negative,
            lead: digits_value(twelve_digits(significant)) as u64,
            scale: (order - 12) as i32,
        }
    }
}

/// A letter in lower case.
pub open spec fn lower(b: u8) -> u8 {
    if 0x41 <= b <= 0x5a {
        (b + 0x20) as u8
    } else {
        b
    }
}

/// "inf"
pub const WORD_INF: [u8; 3] = [0x69, 0x6e, 0x66];

/// "infinity"
pub const WORD_INFINITY: [u8; 8] = [0x69, 0x6e, 0x66, 0x69, 0x6e, 0x69, 0x74, 0x79];

/// Is it a word, in upper or lower case?
pub open spec fn is_word(s: Seq<u8>, word: Seq<u8>) -> bool {
    s.len() == word.len() && forall|i: int| 0 <= i < s.len() ==> lower(#[trigger] s[i]) == word[i]
}

/// The amount that a text writes: a number with or without a sign, a decimal point and an
/// exponent, or the word for infinity.
pub open spec fn amount(s: Seq<u8>) -> Option<Amount> {
    let body = unsigned(s);
    if is_word(body, WORD_INF@) || is_word(body, WORD_INFINITY@) {
        Some(Amount::Infinite { negative: is_negative(s) })
    } else {
        match number(body) {
            Some((digits, scale)) => Some(rounded(is_negative(s), digits, scale)),
            None => None,
        }
    }
}

proof fn lemma_point(s: Seq<u8>, n: int)
    requires
        0 <= n <= s.len(),
        forall|i: int| 0 <= i < n ==> s[i] != 0x2e,
        n < s.len() ==> s[n] == 0x2e,
    ensures
        point(s) == n,
    decreases n,
{
    if n > 0 {
        assert forall|i: int| 0 <= i < n - 1 implies s.drop_first()[i] != 0x2e by {
            assert(s.drop_first()[i] == s[i + 1]);
        }
        lemma_point(s.drop_first(), n - 1);
    }
}

proof fn lemma_exponent_mark(s: Seq<u8>, n: int)
    requires
        0 <= n <= s.len(),
        forall|i: int| 0 <= i < n ==> s[i] != 0x65 && s[i] != 0x45,
        n < s.len() ==> s[n] == 0x65 || s[n] == 0x45,
    ensures
        exponent_mark(s) == n,
    decreases n,
{
    if n > 0 {
        assert forall|i: int| 0 <= i < n - 1 implies s.drop_first()[i] != 0x65
            && s.drop_first()[i] != 0x45 by {
            assert(s.drop_first()[i] == s[i + 1]);
        }
        lemma_exponent_mark(s.drop_first(), n - 1);
    }
}

proof fn lemma_leading_zeros(s: Seq<u8>, n: int)
    requires
        0 <= n <= s.len(),
        forall|i: int| 0 <= i < n ==> s[i] == 0x30,
        n < s.len() ==> s[n] != 0x30,
    ensures
        leading_zeros(s) == n,
    decreases n,
{
    if n > 0 {
        assert forall|i: int| 0 <= i < n - 1 implies s.drop_first()[i] == 0x30 by {
            assert(s.drop_first()[i] == s[i + 1]);
        }
        lemma_leading_zeros(s.drop_first(), n - 1);
    }
}

proof fn lemma_twelve_digits_bound(s: Seq<u8>)
    requires
        s.len() == 12,
        all_digits(s),
    ensures
        digits_value(s) < 1_000_000_000_000,
        s[0] != 0x30 ==> digits_value(s) >= 100_000_000_000,
{
    let s6 = s.take(6);
    let s7 = s.take(7);
    let s8 = s.take(8);
    let s9 = s.take(9);
    let s10 = s.take(10);
    let s11 = s.take(11);
    reveal_with_fuel(digits_value, 7);
    assert(s.drop_last() =~= s11 && s11.drop_last() =~= s10 && s10.drop_last() =~= s9
        && s9.drop_last() =~= s8 && s8.drop_last() =~= s7 && s7.drop_last() =~= s6);
    assert(is_digit(s[0]) && is_digit(s[1]) && is_digit(s[2]) && is_digit(s[3]) && is_digit(s[4])
        && is_digit(s[5]) && is_digit(s[6]) && is_digit(s[7]) && is_digit(s[8]) && is_digit(s[9])
        && is_digit(s[10]) && is_digit(s[11]));
    assert(digits_value(s6) < 1_000_000);
    assert(s[0] != 0x30 ==> digits_value(s6) >= 100_000);
}

/// An exponent that is out of reach of every text.
const FAR: i128 = 1_000_000_000_000_000_000_000_000_000_000;

/// Is it the exponent, or one just as far out of reach?
spec fn stands_for(e: i128, x: int) -> bool {
    if x >= FAR {
        e == FAR
    } else if x <= -FAR {
        e == -FAR
    } else {
        e == x
    }
}

fn is_all_digits(s: &[u8]) -> (r: bool)
    ensures
        r == all_digits(s@),
{
    let mut i: usize = 0;
    while i < s.len()
        invariant
            i <= s.len(),
            forall|j: int| 0 <= j < i ==> is_digit(#[trigger] s@[j]),
        decreases s.len() - i,
    {
        if s[i] < 0x30 || s[i] > 0x39 {
            assert(!is_digit(s@[i as int]));
            return false;
        }
        i += 1;
    }
    true
}

/// What follows the sign.
fn skip_sign<'a>(s: &'a [u8]) -> (r: &'a [u8])
    ensures
        r@ == unsigned(s@),
{
    let start: usize = if s.len() > 0 && (s[0] == 0x2d || s[0] == 0x2b) {
        1
    } else {
        0
    };
    let r = slice_subrange(s, start, s.len());
    assert(r@ =~= unsigned(s@));
    r
}

/// Reads an exponent.
fn read_exponent(s: &[u8]) -> (r: Option<i128>)
    ensures
        match r {
            Some(e) => exponent_value(s@) matches Some(x) && stands_for(e, x),
            None => exponent_value(s@) is None,
        },
{
    let digits = skip_sign(s);
    if digits.len() == 0 || !is_all_digits(digits) {
        return None;
    }
    let mut i: usize = 0;
    let mut value: i128 = 0;
    assert(digits@.take(0) =~= Seq::empty());
    while i < digits.len()
        invariant
            i <= digits.len(),
            all_digits(digits@),
            stands_for(value, digits_value(digits@.take(i as int)) as int),
            0 <= value <= FAR,
        decreases digits.len() - i,
    {
        let ghost next = digits@.take(i + 1);
        assert(next.drop_last() =~= digits@.take(i as int));
        assert(next.last() == digits@[i as int]);
        assert(is_digit(digits@[i as int]));
        let b: u8 = digits[i];
        let wide: i128 = value * 10 + (b - 0x30) as i128;
        value = if wide > FAR {
            FAR
        } else {
            wide
        };
        i += 1;
    }
    assert(digits@.take(i as int) =~= digits@);
    if s[0] == 0x2d {
        Some(-value)
    } else {
        Some(value)
    }
}

/// Reads an amount from digits and the power of ten that they are multiplied by.
fn round(negative: bool, digits: &Vec<u8>, scale: i128, exact: Ghost<int>) -> (r: Amount)
    requires
        all_digits(digits@),
        scale == exact@ || (scale >= FAR - digits@.len() && exact@ >= scale) || (scale <= -FAR
            && exact@ <= scale),
        -FAR - digits@.len() <= scale <= FAR,
    ensures
        r == rounded(negative, digits@, exact@),
        r.wf(),
{
    let mut zeros: usize = 0;
    while zeros < digits.len() && digits[zeros] == 0x30
        invariant
            zeros <= digits.len(),
            forall|i: int| 0 <= i < zeros ==> digits@[i] == 0x30,
        decreases digits.len() - zeros,
    {
        zeros += 1;
    }
    proof {
        lemma_leading_zeros(digits@, zeros as int);
    }
    let ghost significant = digits@.skip(zeros as int);
    let count: usize = digits.len() - zeros;
    let order: i128 = count as i128 + scale;
    if count == 0 || order < -44 {
        return Amount::Finite { negative, lead: 0, scale: 0 };
    }
    if order > 39 {
        return Amount::Infinite { negative };
    }
    let mut twelve: [u8; 12] = [0x30; 12];
    let mut i: usize = 0;
    while i < 12 && i < count
        invariant
            i <= 12,
            i <= count,
            zeros + count == digits.len(),
            significant == digits@.skip(zeros as int),
            forall|j: int| 0 <= j < i ==> twelve@[j] == significant[j],
            forall|j: int| i <= j < 12 ==> twelve@[j] == 0x30,
        decreases 12 - i,
    {
        assert(significant[i as int] == digits@[zeros + i]);
        twelve[i] = digits[zeros + i];
        i += 1;
    }
    assert(twelve@ =~= twelve_digits(significant));
    assert(all_digits(twelve@)) by {
        assert forall|j: int| 0 <= j < 12 implies is_digit(#[trigger] twelve@[j]) by {
            if j < count {
                assert(significant[j] == digits@[zeros + j]);
                assert(is_digit(digits@[zeros + j]));
            }
        }
    }
    proof {
        lemma_twelve_digits_bound(twelve@);
        assert(twelve@[0] == digits@[zeros as int]);
    }
    match read_digits(&twelve, 999_999_999_999) {
        Some(lead) => Amount::Finite { negative, lead, scale: (order - 12) as i32 },
        None => Amount::Infinite { negative },
    }
}

impl Amount {
    /// A finite amount is zero or has twelve digits, and is in reach of a small exponent.
    pub open spec fn wf(self) -> bool {
        match self {
            Amount::Finite { lead, scale, .. } => {
                &&& lead == 0 || 100_000_000_000 <= lead < 1_000_000_000_000
                &&& -56 <= scale <= 27
            },
            Amount::Infinite { .. } => true,
        }
    }
}

/// Is it a word, in upper or lower case?
fn reads(s: &[u8], word: &[u8]) -> (r: bool)
    ensures
        r == is_word(s@, word@),
{
    if s.len() != word.len() {
        return false;
    }
    let mut i: usize = 0;
    while i < s.len()
        invariant
            i <= s.len(),
            s.len() == word.len(),
            forall|j: int| 0 <= j < i ==> lower(#[trigger] s@[j]) == word@[j],
        decreases s.len() - i,
    {
        let b: u8 = s[i];
        let small: u8 = if b >= 0x41 && b <= 0x5a {
            b + 0x20
        } else {
            b
        };
        assert(small == lower(s@[i as int]));
        if small != word[i] {
            return false;
        }
        i += 1;
    }
    true
}

/// Reads an amount.
pub fn parse_amount(s: &[u8]) -> (r: Option<Amount>)
    ensures
        r == amount(s@),
        r matches Some(a) ==> a.wf(),
{
    let negative = s.len() > 0 && s[0] == 0x2d;
    let body = skip_sign(s);
    if reads(body, &WORD_INF) || reads(body, &WORD_INFINITY) {
        return Some(Amount::Infinite { negative });
    }
    let mut m: usize = 0;
    while m < body.len() && body[m] != 0x65 && body[m] != 0x45
        invariant
            m <= body.len(),
            forall|i: int| 0 <= i < m ==> body@[i] != 0x65 && body@[i] != 0x45,
        decreases body.len() - m,
    {
        m += 1;
    }
    proof {
        lemma_exponent_mark(body@, m as int);
    }
    let mantissa = slice_subrange(body, 0, m);
    assert(mantissa@ =~= body@.take(m as int));
    let mut p: usize = 0;
    while p < mantissa.len() && mantissa[p] != 0x2e
        invariant
            p <= mantissa.len(),
            forall|i: int| 0 <= i < p ==> mantissa@[i] != 0x2e,
        decreases mantissa.len() - p,
    {
        p += 1;
    }
    proof {
        lemma_point(mantissa@, p as int);
    }
    let after: usize = if p < m {
        p + 1
    } else {
        p
    };
    let whole = slice_subrange(mantissa, 0, p);
    let part = slice_subrange(mantissa, after, m);
    assert(whole@ =~= mantissa@.take(p as int));
    assert(part@ =~= fraction(mantissa@));
    if whole.len() == 0 && part.len() == 0 {
        return None;
    }
    if !is_all_digits(whole) || !is_all_digits(part) {
        return None;
    }
    let exponent: i128 = if m < body.len() {
        let tail = slice_subrange(body, m + 1, body.len());
        assert(tail@ =~= body@.skip(m + 1));
        match read_exponent(tail) {
            Some(e) => e,
            None => return None,
        }
    } else {
        0
    };
    let mut digits: Vec<u8> = Vec::new();
    digits.extend_from_slice(whole);
    digits.extend_from_slice(part);
    assert(digits@ =~= whole@ + part@);
    assert(all_digits(digits@)) by {
        assert forall|i: int| 0 <= i < digits@.len() implies is_digit(#[trigger] digits@[i]) by {
            if i < whole@.len() {
                assert(is_digit(whole@[i]));
            } else {
                assert(is_digit(part@[i - whole@.len()]));
            }
        }
    }
    let ghost (_, exact) = number(body@)->0;
    Some(round(negative, &digits, exponent - part.len() as i128, Ghost(exact)))
}

/// The digits of a number.
pub open spec fn decimal(n: nat) -> Seq<u8>
    decreases n,
{
    if n < 10 {
        seq![(0x30 + n) as u8]
    } else {
        decimal(n / 10).push((0x30 + n % 10) as u8)
    }
}

/// Appends the digits of a number.
pub fn push_decimal(out: &mut Vec<u8>, n: u64)
    ensures
        final(out)@ == old(out)@ + decimal(n as nat),
    decreases n,
{
    if n < 10 {
        out.push((0x30 + n) as u8);
    } else {
        push_decimal(out, n / 10);
        out.push((0x30 + n % 10) as u8);
    }
    assert(out@ =~= old(out)@ + decimal(n as nat));
}

/// A number that was written is read back as it was.
pub proof fn law_decimal_round_trip(n: nat, max: nat)
    requires
        n <= max,
    ensures
        unsigned_value(decimal(n), max) == Some(n),
{
    lemma_decimal(n);
    assert(is_digit(decimal(n)[0]));
}

proof fn lemma_decimal(n: nat)
    ensures
        decimal(n).len() > 0,
        all_digits(decimal(n)),
        digits_value(decimal(n)) == n,
    decreases n,
{
    let s = decimal(n);
    if n < 10 {
        assert(s.drop_last() =~= Seq::empty());
        assert(digits_value(s.drop_last()) == 0);
    } else {
        lemma_decimal(n / 10);
        assert(s.drop_last() =~= decimal(n / 10));
        assert forall|i: int| 0 <= i < s.len() implies is_digit(#[trigger] s[i]) by {
            if i < s.len() - 1 {
                assert(s[i] == decimal(n / 10)[i]);
            }
        }
    }
}

/// Is it a space of one byte: the space itself, or a character from tab to carriage return?
pub open spec fn is_narrow_space(a: u8) -> bool {
    a == 0x20 || 0x09 <= a <= 0x0d
}

/// Is it a space of two bytes: the next line or the space that does not break?
pub open spec fn is_middle_space(a: u8, b: u8) -> bool {
    a == 0xc2 && (b == 0x85 || b == 0xa0)
}

/// Is it a space of three bytes: the Ogham space, one of those from the en quad to the hair
/// space, the line and the paragraph separator, the narrow space that does not break, the
/// mathematical space or the ideographic space?
pub open spec fn is_wide_space(a: u8, b: u8, c: u8) -> bool {
    ||| a == 0xe1 && b == 0x9a && c == 0x80
    ||| a == 0xe2 && b == 0x80 && (0x80 <= c <= 0x8a || c == 0xa8 || c == 0xa9 || c == 0xaf)
    ||| a == 0xe2 && b == 0x81 && c == 0x9f
    ||| a == 0xe3 && b == 0x80 && c == 0x80
}

/// How many bytes the white space at the start of a text in UTF-8 has: none if there is no
/// white space.
pub open spec fn space_len(s: Seq<u8>) -> nat {
    if s.len() >= 1 && is_narrow_space(s[0]) {
        1
    } else if s.len() >= 2 && is_middle_space(s[0], s[1]) {
        2
    } else if s.len() >= 3 && is_wide_space(s[0], s[1], s[2]) {
        3
    } else {
        0
    }
}

/// How many bytes the white space at `i` has.
fn space_at(s: &[u8], i: usize) -> (r: usize)
    requires
        i < s@.len(),
    ensures
        r == space_len(s@.skip(i as int)),
        i + r <= s@.len(),
{
    let a: u8 = s[i];
    if a == 0x20 || (a >= 0x09 && a <= 0x0d) {
        return 1;
    }
    if s.len() - i < 2 {
        return 0;
    }
    let b: u8 = s[i + 1];
    if a == 0xc2 && (b == 0x85 || b == 0xa0) {
        return 2;
    }
    if s.len() - i < 3 {
        return 0;
    }
    let c: u8 = s[i + 2];
    if (a == 0xe1 && b == 0x9a && c == 0x80) || (a == 0xe2 && b == 0x80 && ((c >= 0x80 && c
        <= 0x8a) || c == 0xa8 || c == 0xa9 || c == 0xaf)) || (a == 0xe2 && b == 0x81 && c == 0x9f)
        || (a == 0xe3 && b == 0x80 && c == 0x80) {
        3
    } else {
        0
    }
}

/// How many bytes there are before the first white space.
pub open spec fn word_len(s: Seq<u8>) -> nat
    decreases s.len(),
{
    if s.len() == 0 || space_len(s) > 0 {
        0
    } else {
        1 + word_len(s.drop_first())
    }
}

pub proof fn lemma_word_len(s: Seq<u8>)
    ensures
        word_len(s) <= s.len(),
    decreases s.len(),
{
    if s.len() > 0 && space_len(s) == 0 {
        lemma_word_len(s.drop_first());
    }
}

/// The words of a text, which white space separates.
pub open spec fn words(s: Seq<u8>) -> Seq<Seq<u8>>
    decreases s.len(),
{
    if s.len() == 0 {
        Seq::empty()
    } else if space_len(s) > 0 {
        words(s.skip(space_len(s) as int))
    } else {
        proof {
            lemma_word_len(s);
        }
        let n = word_len(s) as int;
        seq![s.take(n)] + words(s.skip(n))
    }
}

/// What vectors of bytes hold.
pub open spec fn contents(v: Seq<Vec<u8>>) -> Seq<Seq<u8>> {
    v.map_values(|w: Vec<u8>| w@)
}

/// The words of a text.
pub fn split_words(s: &[u8]) -> (r: Vec<Vec<u8>>)
    ensures
        contents(r@) == words(s@),
{
    let mut out: Vec<Vec<u8>> = Vec::new();
    let mut i: usize = 0;
    assert(s@.skip(0) =~= s@);
    assert(contents(out@) + words(s@) =~= words(s@));
    while i < s.len()
        invariant
            i <= s.len(),
            contents(out@) + words(s@.skip(i as int)) == words(s@),
        decreases s.len() - i,
    {
        let ghost rest = s@.skip(i as int);
        let gap = space_at(s, i);
        if gap > 0 {
            assert(rest.skip(gap as int) =~= s@.skip(i + gap));
            i += gap;
        } else {
            let start: usize = i;
            let mut word: Vec<u8> = Vec::new();
            assert(rest.skip(0) =~= rest);
            while i < s.len() && space_at(s, i) == 0
                invariant
                    start <= i <= s.len(),
                    rest == s@.skip(start as int),
                    word@ == s@.subrange(start as int, i as int),
                    word_len(rest) == (i - start) + word_len(rest.skip(i - start)),
                    start == i ==> start < s.len() && space_len(rest) == 0,
                decreases s.len() - i,
            {
                assert(rest.skip(i - start).drop_first() =~= rest.skip(i + 1 - start));
                assert(rest.skip(i - start) =~= s@.skip(i as int));
                word.push(s[i]);
                i += 1;
                assert(word@ =~= s@.subrange(start as int, i as int));
            }
            proof {
                assert(rest.skip(i - start) =~= s@.skip(i as int));
                assert(word_len(rest.skip(i - start)) == 0);
                assert(rest.take(i - start) =~= word@);
                assert(contents(out@.push(word)) =~= contents(out@).push(word@));
                assert(contents(out@).push(word@) + words(s@.skip(i as int)) =~= contents(out@) + (
                seq![word@] + words(s@.skip(i as int))));
            }
            out.push(word);
        }
    }
    assert(contents(out@) + words(s@.skip(i as int)) =~= contents(out@));
    out
}

/// How many bytes there are before the first line feed.
pub open spec fn line_len(s: Seq<u8>) -> nat
    decreases s.len(),
{
    if s.len() == 0 || s[0] == 0x0a {
        0
    } else {
        1 + line_len(s.drop_first())
    }
}

/// The lines of a text, each without its line feed.
pub open spec fn lines(s: Seq<u8>) -> Seq<Seq<u8>>
    decreases s.len(),
{
    if s.len() == 0 {
        Seq::empty()
    } else {
        let n = line_len(s);
        if n >= s.len() {
            seq![s]
        } else {
            seq![s.take(n as int)] + lines(s.skip((n + 1) as int))
        }
    }
}

/// The lines of a text.
pub fn split_lines(s: &[u8]) -> (r: Vec<Vec<u8>>)
    ensures
        contents(r@) == lines(s@),
{
    let mut out: Vec<Vec<u8>> = Vec::new();
    let mut i: usize = 0;
    assert(s@.skip(0) =~= s@);
    assert(contents(out@) + lines(s@) =~= lines(s@));
    while i < s.len()
        invariant
            i <= s.len(),
            contents(out@) + lines(s@.skip(i as int)) == lines(s@),
        decreases s.len() - i,
    {
        let ghost rest = s@.skip(i as int);
        let start: usize = i;
        let mut line: Vec<u8> = Vec::new();
        assert(rest.skip(0) =~= rest);
        while i < s.len() && s[i] != 0x0a
            invariant
                start <= i <= s.len(),
                rest == s@.skip(start as int),
                line@ == s@.subrange(start as int, i as int),
                line_len(rest) == (i - start) + line_len(rest.skip(i - start)),
            decreases s.len() - i,
        {
            assert(rest.skip(i - start).drop_first() =~= rest.skip(i + 1 - start));
            assert(rest.skip(i - start)[0] == s@[i as int]);
            line.push(s[i]);
            i += 1;
            assert(line@ =~= s@.subrange(start as int, i as int));
        }
        proof {
            assert(i < s.len() ==> rest.skip(i - start)[0] == s@[i as int]);
            assert(line_len(rest.skip(i - start)) == 0);
            assert(rest.take(i - start) =~= line@);
            assert(i == s.len() ==> rest =~= line@);
            assert(contents(out@.push(line)) =~= contents(out@).push(line@));
        }
        if i < s.len() {
            proof {
                assert(rest.skip(i - start + 1) =~= s@.skip(i + 1));
                assert(contents(out@).push(line@) + lines(s@.skip(i + 1)) =~= contents(out@) + (
                seq![line@] + lines(s@.skip(i + 1))));
            }
            i += 1;
        } else {
            assert(contents(out@).push(line@) + lines(s@.skip(i as int)) =~= contents(out@)
                + seq![line@]);
        }
        out.push(line);
    }
    assert(contents(out@) + lines(s@.skip(i as int)) =~= contents(out@));
    out
}

/// Does the text start with `prefix`?
pub fn starts_with(s: &[u8], prefix: &[u8]) -> (r: bool)
    ensures
        r == prefix@.is_prefix_of(s@),
{
    if s.len() < prefix.len() {
        return false;
    }
    let mut i: usize = 0;
    while i < prefix.len()
        invariant
            i <= prefix.len() <= s.len(),
            forall|j: int| 0 <= j < i ==> prefix@[j] == s@[j],
        decreases prefix.len() - i,
    {
        if s[i] != prefix[i] {
            assert(s@.subrange(0, prefix@.len() as int)[i as int] != prefix@[i as int]);
            return false;
        }
        i += 1;
    }
    assert(prefix@ =~= s@.subrange(0, prefix@.len() as int));
    true
}

proof fn lemma_decimal_head(n: nat)
    requires
        n > 0,
    ensures
        decimal(n)[0] != 0x30,
        n >= ten_to(decimal(n).len() - 1),
    decreases n,
{
    lemma_decimal(n);
    if n >= 10 {
        lemma_decimal_head(n / 10);
        lemma_decimal(n / 10);
        assert(decimal(n)[0] == decimal(n / 10)[0]);
        assert(ten_to(decimal(n).len() - 1) == 10 * ten_to(decimal(n / 10).len() - 1));
    }
}

proof fn lemma_zeros_behind(s: Seq<u8>, k: nat)
    ensures
        digits_value(s + Seq::new(k, |i: int| 0x30u8)) == digits_value(s) * ten_to(k as int),
    decreases k,
{
    let all = s + Seq::new(k, |i: int| 0x30u8);
    if k == 0 {
        assert(all =~= s);
    } else {
        let m = (k - 1) as nat;
        lemma_zeros_behind(s, m);
        assert(all.drop_last() =~= s + Seq::new(m, |i: int| 0x30u8));
        let (v, t) = (digits_value(s) as int, ten_to(m as int));
        assert(10 * (v * t) == v * (10 * t)) by (nonlinear_arith);
    }
}

/// A whole number below a million millions is read for what it is: its twelve leading digits,
/// times ten to the power of the scale, are the number.
pub proof fn law_whole_amounts(n: nat)
    requires
        n < 1_000_000_000_000,
    ensures
        amount(decimal(n)) matches Some(Amount::Finite { negative, lead, scale }) && !negative
            && -12 < scale <= 0 && lead == n * ten_to(-scale),
{
    let s = decimal(n);
    let len = s.len() as int;
    lemma_decimal(n);
    assert(is_digit(s[0]));
    assert(lower(s[0]) == s[0]);
    assert(!is_word(s, WORD_INF@) && !is_word(s, WORD_INFINITY@));
    assert forall|i: int| 0 <= i < len implies s[i] != 0x65 && s[i] != 0x45 && s[i] != 0x2e by {
        assert(is_digit(s[i]));
    }
    lemma_exponent_mark(s, len);
    lemma_point(s, len);
    assert(s.take(len) =~= s);
    assert(fraction(s) == Seq::<u8>::empty());
    assert(s + Seq::<u8>::empty() =~= s);
    assert(number(s) == Some((s, 0int)));
    if n == 0 {
        lemma_leading_zeros(s, 1);
        assert(s.skip(1).len() == 0);
    } else {
        lemma_decimal_head(n);
        lemma_leading_zeros(s, 0);
        assert(s.skip(0) =~= s);
        if len >= 13 {
            lemma_ten_to_grows(12, len - 1);
        }
        reveal_with_fuel(ten_to, 13);
        assert(ten_to(12) == 1_000_000_000_000);
        assert(len <= 12);
        let k = (12 - len) as nat;
        lemma_zeros_behind(s, k);
        let padded = twelve_digits(s);
        assert(padded =~= s + Seq::new(k, |i: int| 0x30u8));
        assert(all_digits(padded)) by {
            assert forall|i: int| 0 <= i < padded.len() implies is_digit(#[trigger] padded[i]) by {
                if i < len {
                    assert(padded[i] == s[i]);
                }
            }
        }
        assert(padded[0] == s[0]);
        lemma_twelve_digits_bound(padded);
        assert(rounded(false, s, 0) == (Amount::Finite {
            negative: false,
            lead: digits_value(padded) as u64,
            scale: (len - 12) as i32,
        }));
    }
}

proof fn lemma_ten_to_grows(m: int, n: int)
    requires
        0 <= m <= n,
    ensures
        1 <= ten_to(m) <= ten_to(n),
    decreases n,
{
    if m < n {
        lemma_ten_to_grows(m, n - 1);
    } else if n > 0 {
        lemma_ten_to_grows(n - 1, n - 1);
    }
}

/// The lines of a text are what stands before, between and behind its line feeds: a line that
/// is put in front is the first, and the others follow.
pub proof fn law_first_line(line: Seq<u8>, rest: Seq<u8>)
    requires
        forall|i: int| 0 <= i < line.len() ==> line[i] != 0x0a,
    ensures
        lines(line + seq![0x0au8] + rest) == seq![line] + lines(rest),
{
    let text = line + seq![0x0au8] + rest;
    let n = line.len() as int;
    assert forall|i: int| 0 <= i < n implies text[i] != 0x0a by {
        assert(text[i] == line[i]);
    }
    assert(text[n] == 0x0a);
    lemma_line_len(text, n);
    assert(text.take(n) =~= line);
    assert(text.skip(n + 1) =~= rest);
}

proof fn lemma_line_len(s: Seq<u8>, n: int)
    requires
        0 <= n < s.len(),
        forall|i: int| 0 <= i < n ==> s[i] != 0x0a,
        s[n] == 0x0a,
    ensures
        line_len(s) == n,
    decreases n,
{
    if n > 0 {
        assert forall|i: int| 0 <= i < n - 1 implies s.drop_first()[i] != 0x0a by {
            assert(s.drop_first()[i] == s[i + 1]);
        }
        lemma_line_len(s.drop_first(), n - 1);
    }
}

/// Spaces part the words of a text: one that is put in front, with a space behind it, is the
/// first, and a space in front of a text does not change its words.
pub proof fn law_first_word(word: Seq<u8>, rest: Seq<u8>)
    requires
        word.len() > 0,
        forall|i: int| 0 <= i < word.len() ==> 0x20 < #[trigger] word[i] < 0x80,
    ensures
        words(word + seq![0x20u8] + rest) == seq![word] + words(rest),
        words(word) == seq![word],
        words(seq![0x20u8] + rest) == words(rest),
{
    let text = word + seq![0x20u8] + rest;
    let n = word.len() as int;
    let tail = seq![0x20u8] + rest;
    assert(tail.skip(1) =~= rest);
    assert(tail[0] == 0x20);
    assert(space_len(tail) == 1);
    assert(words(tail) == words(rest));
    lemma_one_word(word, seq![0x20u8] + rest);
    assert(text =~= word + (seq![0x20u8] + rest));
    assert(text[0] == word[0]);
    assert(text.take(n) =~= word);
    assert(text.skip(n) =~= seq![0x20u8] + rest);
    lemma_one_word(word, Seq::empty());
    assert(word + Seq::<u8>::empty() =~= word);
    assert(word.take(n) =~= word);
    assert(word.skip(n) =~= Seq::empty());
    assert(words(word.skip(n)) =~= Seq::empty());
    assert(words(word) =~= seq![word]);
}

proof fn lemma_one_word(word: Seq<u8>, rest: Seq<u8>)
    requires
        forall|i: int| 0 <= i < word.len() ==> 0x20 < #[trigger] word[i] < 0x80,
        rest.len() == 0 || rest[0] == 0x20,
    ensures
        word_len(word + rest) == word.len(),
        word.len() > 0 ==> space_len(word + rest) == 0,
    decreases word.len(),
{
    let s = word + rest;
    if word.len() == 0 {
        assert(s =~= rest);
    } else {
        assert(s[0] == word[0]);
        assert(s.drop_first() =~= word.drop_first() + rest);
        lemma_one_word(word.drop_first(), rest);
    }
}

/// A number is written without a sign and without zeros in front, and read with or without a
/// plus sign, as long as it is not too large; different numbers are written differently.
pub proof fn law_decimal_form(n: nat, m: nat, max: nat)
    ensures
        all_digits(decimal(n)),
        decimal(n).len() > 0,
        n > 0 ==> decimal(n)[0] != 0x30,
        n <= max ==> unsigned_value(seq![0x2bu8] + decimal(n), max) == Some(n),
        n > max ==> unsigned_value(decimal(n), max) is None,
        decimal(n) == decimal(m) ==> n == m,
        unsigned_value(Seq::empty(), max) is None,
{
    lemma_decimal(n);
    lemma_decimal(m);
    if n > 0 {
        lemma_decimal_head(n);
    }
    assert((seq![0x2bu8] + decimal(n)).drop_first() =~= decimal(n));
    assert(is_digit(decimal(n)[0]));
}

/// Digits with an exponent are the digits, moved by so many places; those with a point are the
/// digits before and behind it, moved back by the number of those behind it.
pub proof fn law_points_and_exponents(whole: Seq<u8>, part: Seq<u8>, n: nat)
    requires
        all_digits(whole),
        all_digits(part),
        whole.len() > 0,
    ensures
        number(whole) == Some((whole, 0int)),
        number(whole + seq![0x65u8] + decimal(n)) == Some((whole, n as int)),
        number(whole + seq![0x65u8, 0x2du8] + decimal(n)) == Some((whole, -n)),
        number(whole + seq![0x2eu8] + part) == Some((whole + part, -(part.len() as int))),
{
    let len = whole.len() as int;
    lemma_decimal(n);
    assert forall|i: int| 0 <= i < len implies whole[i] != 0x65 && whole[i] != 0x45 && whole[i]
        != 0x2e by {
        assert(is_digit(whole[i]));
    }
    lemma_exponent_mark(whole, len);
    lemma_point(whole, len);
    assert(whole.take(len) =~= whole);
    assert(whole + Seq::<u8>::empty() =~= whole);
    let a = whole + seq![0x65u8] + decimal(n);
    lemma_exponent_mark(a, len);
    assert(a.take(len) =~= whole);
    assert(a.skip(len + 1) =~= decimal(n));
    assert(is_digit(decimal(n)[0]));
    let b = whole + seq![0x65u8, 0x2du8] + decimal(n);
    lemma_exponent_mark(b, len);
    assert(b.take(len) =~= whole);
    assert(b.skip(len + 1) =~= seq![0x2du8] + decimal(n));
    assert((seq![0x2du8] + decimal(n)).drop_first() =~= decimal(n));
    let c = whole + seq![0x2eu8] + part;
    assert forall|i: int| 0 <= i < c.len() implies c[i] != 0x65 && c[i] != 0x45 by {
        if i < len {
            assert(c[i] == whole[i]);
        } else if i > len {
            assert(c[i] == part[i - len - 1]);
            assert(is_digit(part[i - len - 1]));
        }
    }
    lemma_exponent_mark(c, c.len() as int);
    assert(c.take(c.len() as int) =~= c);
    assert forall|i: int| 0 <= i < len implies c[i] != 0x2e by {
        assert(c[i] == whole[i]);
    }
    lemma_point(c, len);
    assert(c.take(len) =~= whole);
    assert(c.skip(len + 1) =~= part);
}

/// Of a long number the twelve leading digits are kept, and its size; what is too large for the
/// widest float of 32 bits is infinite, and what is too small is zero.
pub proof fn law_long_amounts(digits: Seq<u8>, scale: int, negative: bool)
    requires
        all_digits(digits),
        digits.len() > 0,
        digits[0] != 0x30,
    ensures
        digits.len() + scale > 39 ==> rounded(negative, digits, scale) == (Amount::Infinite {
            negative,
        }),
        digits.len() + scale < -44 ==> rounded(negative, digits, scale) == (Amount::Finite {
            negative,
            lead: 0,
            scale: 0,
        }),
        -44 <= digits.len() + scale <= 39 && digits.len() >= 12 ==> rounded(
            negative,
            digits,
            scale,
        ) == (Amount::Finite {
            negative,
            lead: digits_value(digits.take(12)) as u64,
            scale: (digits.len() + scale - 12) as i32,
        }),
        rounded(negative, seq![0x30u8] + digits, scale) == rounded(negative, digits, scale),
{
    lemma_leading_zeros(digits, 0);
    assert(digits.skip(0) =~= digits);
    if digits.len() >= 12 {
        assert(twelve_digits(digits) =~= digits.take(12));
    }
    let padded = seq![0x30u8] + digits;
    lemma_leading_zeros(padded, 1);
    assert(padded.skip(1) =~= digits);
}

} // verus!
