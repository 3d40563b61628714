//! Unsigned decimal numerals as ASCII bytes.

use vstd::prelude::*;

verus! {

/// The ASCII code of the digit `0`.
pub const ZERO: u8 = 48;

pub open spec fn is_digit(b: u8) -> bool {
    ZERO <= b && b <= ZERO + 9
}

pub open spec fn all_digits(s: Seq<u8>) -> bool {
    forall|i: int| 0 <= i < s.len() ==> is_digit(#[trigger] s[i])
}

/// The shortest decimal numeral of `n`: no leading zeros, `0` for zero.
pub open spec fn numeral(n: nat) -> Seq<u8>
    decreases n,
{
    if n < 10 {
        seq![(ZERO + n) as u8]
    } else {
        numeral(n / 10).push((ZERO + n % 10) as u8)
    }
}

/// The value of a string of digits, most significant first.
pub open spec fn value_of(s: Seq<u8>) -> nat
    decreases s.len(),
{
    if s.len() == 0 {
        0
    } else {
        value_of(s.drop_last()) * 10 + (s.last() - ZERO) as nat
    }
}

/// A `u32` written in decimal: one digit at least, nothing but digits, and a
/// value that fits.
pub open spec fn parse_u32(s: Seq<u8>) -> Option<u32> {
    if s.len() > 0 && all_digits(s) && value_of(s) <= u32::MAX {
        Some(value_of(s) as u32)
    } else {
        None
    }
}

pub proof fn lemma_numeral_digits(n: nat)
    ensures
        all_digits(numeral(n)),
        numeral(n).len() > 0,
        value_of(numeral(n)) == n,
    decreases n,
{
    if n >= 10 {
        lemma_numeral_digits(n / 10);
        let s = numeral(n);
        assert(s.drop_last() =~= numeral(n / 10));
        assert(s.last() == (ZERO + n % 10) as u8);
        assert(value_of(s) == value_of(numeral(n / 10)) * 10 + (n % 10));
        assert(n == (n / 10) * 10 + n % 10) by (nonlinear_arith);
    } else {
        let s = numeral(n);
        assert(s.drop_last() =~= Seq::<u8>::empty());
        assert(value_of(s) == value_of(s.drop_last()) * 10 + (s.last() - ZERO) as nat);
    }
}

/// Reading back the numeral of a `u32` gives the number.
pub proof fn lemma_parse_numeral(n: u32)
    ensures
        parse_u32(numeral(n as nat)) == Some(n),
{
    lemma_numeral_digits(n as nat);
}

/// Appending digits never makes the value smaller.
pub proof fn lemma_value_prefix(s: Seq<u8>, k: int)
    requires
        all_digits(s),
        0 <= k <= s.len(),
    ensures
        value_of(s.subrange(0, k)) <= value_of(s),
    decreases s.len(),
{
    if k < s.len() {
        assert(s.drop_last() =~= s.subrange(0, s.len() - 1));
        assert(s.drop_last().subrange(0, k) =~= s.subrange(0, k));
        lemma_value_prefix(s.drop_last(), k);
    } else {
        assert(s.subrange(0, k) =~= s);
    }
}

/// Appends the numeral of `n` to `out`.
pub fn push_numeral(out: &mut Vec<u8>, n: u64)
    ensures
        final(out)@ == old(out)@ + numeral(n as nat),
    decreases n,
{
    if n < 10 {
        out.push(ZERO + n as u8);
        assert(final(out)@ =~= old(out)@ + numeral(n as nat));
    } else {
        push_numeral(out, n / 10);
        out.push(ZERO + (n % 10) as u8);
        assert(final(out)@ =~= old(out)@ + numeral(n as nat));
    }
}

/// Reads `bytes[start..end]` as a `u32` numeral.
pub fn parse_u32_range(bytes: &[u8], start: usize, end: usize) -> (r: Option<u32>)
    requires
        start <= end <= bytes@.len(),
    ensures
        r == parse_u32(bytes@.subrange(start as int, end as int)),
{
    let ghost field = bytes@.subrange(start as int, end as int);
    if start == end {
        return None;
    }
    let mut value: u64 = 0;
    let mut i: usize = start;
    while i < end
        invariant
            start <= i <= end <= bytes@.len(),
            field == bytes@.subrange(start as int, end as int),
            all_digits(bytes@.subrange(start as int, i as int)),
            value == value_of(bytes@.subrange(start as int, i as int)),
            value <= u32::MAX,
        decreases end - i,
    {
        let b = bytes[i];
        let ghost done = bytes@.subrange(start as int, i as int);
        let ghost next = bytes@.subrange(start as int, i + 1);
        assert(next.drop_last() =~= done);
        assert(next =~= field.subrange(0, i + 1 - start));
        if !(ZERO <= b && b <= ZERO + 9) {
            assert(field[i - start] == b);
            return None;
        }
        value = value * 10 + (b - ZERO) as u64;
        i = i + 1;
        if value > u32::MAX as u64 {
            proof {
                if all_digits(field) {
                    assert(field.subrange(0, i - start) =~= bytes@.subrange(start as int, i as int));
                    lemma_value_prefix(field, i - start);
                }
            }
            return None;
        }
    }
    assert(field =~= bytes@.subrange(start as int, i as int));
    Some(value as u32)
}

} // verus!
