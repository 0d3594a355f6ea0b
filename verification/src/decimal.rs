//! Decimal text: the form in which the wire protocol writes its numbers and
//! in which packed integers are handed on as byte strings.

use vstd::prelude::*;

verus! {

/// The byte `0`.
pub const ZERO: u8 = 48;

/// The byte `9`.
pub const NINE: u8 = 57;

/// The byte `+`.
pub const PLUS_SIGN: u8 = 43;

/// The byte `-`.
pub const MINUS_SIGN: u8 = 45;

/// Whether every byte of `s` is a decimal digit.
pub open spec fn is_digits(s: Seq<u8>) -> bool {
    forall|i: int| 0 <= i < s.len() ==> ZERO <= #[trigger] s[i] <= NINE
}

/// The number that the digits of `s` spell, most significant digit first.
pub open spec fn digits_value(s: Seq<u8>) -> int
    decreases s.len(),
{
    if s.len() == 0 {
        0
    } else {
        digits_value(s.drop_last()) * 10 + (s.last() - ZERO)
    }
}

/// The digits of `n` without leading zeros; `0` is the single digit zero.
pub open spec fn decimal_text(n: nat) -> Seq<u8>
    decreases n,
{
    if n < 10 {
        seq![(ZERO + n) as u8]
    } else {
        decimal_text(n / 10).push((ZERO + n % 10) as u8)
    }
}

/// The decimal text of an integer: a minus sign before the digits of a negative one.
pub open spec fn signed_text(i: int) -> Seq<u8> {
    if i < 0 {
        seq![MINUS_SIGN] + decimal_text((-i) as nat)
    } else {
        decimal_text(i as nat)
    }
}

/// The signed 64-bit integer that `s` spells, if it spells one: an optional
/// sign, then at least one digit and nothing else, the whole within range.
pub open spec fn decimal_i64(s: Seq<u8>) -> Option<int> {
    let negative = s.len() > 0 && s[0] == MINUS_SIGN;
    let body = if s.len() > 0 && (s[0] == MINUS_SIGN || s[0] == PLUS_SIGN) {
        s.skip(1)
    } else {
        s
    };
    let value = if negative {
        -digits_value(body)
    } else {
        digits_value(body)
    };
    if body.len() > 0 && is_digits(body) && i64::MIN <= value <= i64::MAX {
        Some(value)
    } else {
        None
    }
}

/// Digits spell a number that is not negative.
pub proof fn lemma_digits_value_nonnegative(s: Seq<u8>)
    requires
        is_digits(s),
    ensures
        digits_value(s) >= 0,
    decreases s.len(),
{
    if s.len() > 0 {
        lemma_digits_value_nonnegative(s.drop_last());
    }
}

/// A number spelled by digits is at least the number spelled by any of its prefixes.
pub proof fn lemma_digits_value_prefix(s: Seq<u8>, k: int)
    requires
        is_digits(s),
        0 <= k <= s.len(),
    ensures
        digits_value(s.take(k)) <= digits_value(s),
    decreases s.len(),
{
    if k == s.len() {
        assert(s.take(k) =~= s);
    } else {
        assert(s.drop_last().take(k) =~= s.take(k));
        lemma_digits_value_prefix(s.drop_last(), k);
        lemma_digits_value_nonnegative(s.drop_last());
    }
}

/// The decimal text of a number is made of digits, at least one, and spells that number.
pub proof fn lemma_decimal_text_spells(n: nat)
    ensures
        decimal_text(n).len() > 0,
        is_digits(decimal_text(n)),
        digits_value(decimal_text(n)) == n,
    decreases n,
{
    if n < 10 {
        let s = decimal_text(n);
        assert(s.drop_last() =~= Seq::<u8>::empty());
        assert(digits_value(s.drop_last()) == 0);
    } else {
        lemma_decimal_text_spells(n / 10);
        let s = decimal_text(n);
        assert(s.drop_last() =~= decimal_text(n / 10));
    }
}

/// Reading back the decimal text of a signed 64-bit integer gives that integer.
pub proof fn lemma_signed_text_round_trip(i: int)
    requires
        i64::MIN <= i <= i64::MAX,
    ensures
        decimal_i64(signed_text(i)) == Some(i),
{
    if i < 0 {
        let digits = decimal_text((-i) as nat);
        lemma_decimal_text_spells((-i) as nat);
        let s = signed_text(i);
        assert(s.skip(1) =~= digits);
        assert(s[0] == MINUS_SIGN);
    } else {
        lemma_decimal_text_spells(i as nat);
        let s = signed_text(i);
        assert(ZERO <= s[0] <= NINE);
    }
}

/// Reads a signed 64-bit integer from its decimal text.
pub fn parse_i64(bytes: &[u8]) -> (r: Option<i64>)
    ensures
        match r {
            Some(v) => decimal_i64(bytes@) == Some(v as int),
            None => decimal_i64(bytes@) is None,
        },
{
    let n = bytes.len();
    if n == 0 {
        return None;
    }
    let negative = bytes[0] == MINUS_SIGN;
    let start: usize = if bytes[0] == MINUS_SIGN || bytes[0] == PLUS_SIGN {
        1
    } else {
        0
    };
    if start == n {
        return None;
    }
    let ghost body = bytes@.skip(start as int);
    proof {
        assert(bytes@.skip(0) =~= bytes@);
        assert(body.take(0) =~= Seq::<u8>::empty());
    }
    let limit: u64 = if negative {
        0x8000_0000_0000_0000
    } else {
        0x7fff_ffff_ffff_ffff
    };
    let mut acc: u64 = 0;
    let mut i: usize = start;
    while i < n
        invariant
            start <= i <= n,
            n == bytes@.len(),
            body == bytes@.skip(start as int),
            start == 0 ==> body == bytes@,
            is_digits(body.take(i - start)),
            acc == digits_value(body.take(i - start)),
            acc <= limit,
            n > 0,
            negative == (bytes@[0] == MINUS_SIGN),
            start == if bytes@[0] == MINUS_SIGN || bytes@[0] == PLUS_SIGN {
                1int
            } else {
                0int
            },
            limit == if negative {
                0x8000_0000_0000_0000u64
            } else {
                0x7fff_ffff_ffff_ffffu64
            },
        decreases n - i,
    {
        let b = bytes[i];
        let ghost seen = body.take(i - start);
        let ghost next = body.take(i + 1 - start);
        proof {
            assert(next.drop_last() =~= seen);
            assert(next.last() == b);
        }
        if b < ZERO || b > NINE {
            assert(!is_digits(body));
            return None;
        }
        assert(is_digits(next)) by {
            assert forall|j: int| 0 <= j < next.len() implies ZERO <= #[trigger] next[j] <= NINE by {
                if j < seen.len() {
                    assert(next[j] == seen[j]);
                }
            }
        }
        let digit: u64 = (b - ZERO) as u64;
        assert(digits_value(next) == acc * 10 + digit);
        if acc > limit / 10 || acc * 10 + digit > limit {
            proof {
                if is_digits(body) {
                    lemma_digits_value_prefix(body, i + 1 - start);
                }
            }
            return None;
        }
        acc = acc * 10 + digit;
        i = i + 1;
    }
    proof {
        assert(body.take(n - start) =~= body);
    }
    if negative {
        if acc == 0x8000_0000_0000_0000 {
            Some(i64::MIN)
        } else {
            Some(-(acc as i64))
        }
    } else {
        Some(acc as i64)
    }
}

/// Appends the decimal text of `n` to `out`.
pub fn push_decimal(out: &mut Vec<u8>, n: u64)
    ensures
        final(out)@ == old(out)@ + decimal_text(n as nat),
    decreases n,
{
    if n >= 10 {
        push_decimal(out, n / 10);
    }
    out.push(ZERO + (n % 10) as u8);
    proof {
        if n < 10 {
            assert(out@ =~= old(out)@ + decimal_text(n as nat));
        } else {
            assert(out@ =~= old(out)@ + decimal_text(n as nat));
        }
    }
}

/// The decimal text of a signed 64-bit integer.
pub fn i64_to_text(v: i64) -> (text: Vec<u8>)
    ensures
        text@ == signed_text(v as int),
{
    let mut text: Vec<u8> = Vec::new();
    if v < 0 {
        text.push(MINUS_SIGN);
        let magnitude: u64 = if v == i64::MIN {
            0x8000_0000_0000_0000
        } else {
            (-v) as u64
        };
        push_decimal(&mut text, magnitude);
        assert(text@ =~= signed_text(v as int));
    } else {
        push_decimal(&mut text, v as u64);
        assert(text@ =~= signed_text(v as int));
    }
    text
}

} // verus!
