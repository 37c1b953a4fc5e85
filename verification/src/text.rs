//! Byte-level text helpers: finding a separator and reading a decimal byte.

use vstd::prelude::*;
use vstd::slice::slice_subrange;

verus! {

/// The first position at or after `from` where `s` holds `sep`, or the length
/// of `s` where it holds none.
pub open spec fn next_sep(s: Seq<u8>, sep: u8, from: int) -> int
    decreases s.len() - from,
{
    if from < 0 || from >= s.len() {
        s.len() as int
    } else if s[from] == sep {
        from
    } else {
        next_sep(s, sep, from + 1)
    }
}

/// `next_sep` lies between `from` and the end, points at a separator unless
/// it is the end, and nothing before it is one.
pub proof fn lemma_next_sep(s: Seq<u8>, sep: u8, from: int)
    requires
        0 <= from <= s.len(),
    ensures
        from <= next_sep(s, sep, from) <= s.len(),
        next_sep(s, sep, from) < s.len() ==> s[next_sep(s, sep, from)] == sep,
        forall|i: int| from <= i < next_sep(s, sep, from) ==> s[i] != sep,
    decreases s.len() - from,
{
    if from < s.len() && s[from] != sep {
        lemma_next_sep(s, sep, from + 1);
    }
}

/// Finds the first `sep` at or after `from`.
pub fn find_sep(bytes: &[u8], sep: u8, from: usize) -> (end: usize)
    requires
        from <= bytes@.len(),
    ensures
        end == next_sep(bytes@, sep, from as int),
        from <= end <= bytes@.len(),
{
    let mut i: usize = from;
    while i < bytes.len() && bytes[i] != sep
        invariant
            from <= i <= bytes@.len(),
            next_sep(bytes@, sep, from as int) == next_sep(bytes@, sep, i as int),
        decreases bytes@.len() - i,
    {
        i += 1;
    }
    proof {
        lemma_next_sep(bytes@, sep, i as int);
    }
    i
}

/// Whether `c` is an ASCII decimal digit.
pub open spec fn is_digit(c: u8) -> bool {
    0x30 <= c <= 0x39
}

/// The number that the decimal digits `digits` write, most significant first.
pub open spec fn decimal_value(digits: Seq<u8>) -> nat
    decreases digits.len(),
{
    if digits.len() == 0 {
        0
    } else {
        decimal_value(digits.drop_last()) * 10 + (digits.last() - 0x30) as nat
    }
}

/// `text` without the `+` that may lead it.
pub open spec fn unsigned_part(text: Seq<u8>) -> Seq<u8> {
    if text.len() > 0 && text[0] == 0x2b {
        text.skip(1)
    } else {
        text
    }
}

/// The byte that `text` writes in decimal: an optional `+`, then one or more
/// digits whose value is at most 255. Anything else, a sign alone, a space,
/// or a larger number, is `None`.
pub open spec fn decimal_u8(text: Seq<u8>) -> Option<u8> {
    let digits = unsigned_part(text);
    if digits.len() > 0 && (forall|i: int| 0 <= i < digits.len() ==> is_digit(#[trigger] digits[i]))
        && decimal_value(digits) <= 255 {
        Some(decimal_value(digits) as u8)
    } else {
        None
    }
}

/// A longer run of digits writes no smaller a number.
proof fn lemma_decimal_value_grows(digits: Seq<u8>, n: int)
    requires
        0 <= n <= digits.len(),
        forall|i: int| 0 <= i < digits.len() ==> is_digit(#[trigger] digits[i]),
    ensures
        decimal_value(digits.take(n)) <= decimal_value(digits),
    decreases digits.len() - n,
{
    if n < digits.len() {
        let longer = digits.take(n + 1);
        assert(longer.drop_last() =~= digits.take(n));
        assert(is_digit(digits[n]));
        lemma_decimal_value_grows(digits, n + 1);
    } else {
        assert(digits.take(n) =~= digits);
    }
}

/// Reads a byte written in decimal.
pub fn parse_u8(text: &[u8]) -> (r: Option<u8>)
    ensures
        r == decimal_u8(text@),
{
    let n = text.len();
    let first: usize = if n > 0 && text[0] == 0x2b {
        1
    } else {
        0
    };
    if first == n {
        return None;
    }
    let ghost digits = text@.skip(first as int);
    let mut value: u16 = 0;
    let mut i: usize = first;
    proof {
        assert(digits.take(0) =~= Seq::<u8>::empty());
        assert(text@.skip(0) =~= text@);
    }
    while i < n
        invariant
            first <= i <= n,
            first < n,
            n == text@.len(),
            digits == text@.skip(first as int),
            digits == unsigned_part(text@),
            forall|j: int| 0 <= j < i - first ==> is_digit(#[trigger] digits[j]),
            value == decimal_value(digits.take(i - first)),
            value <= 255,
        decreases n - i,
    {
        let c = text[i];
        if c < 0x30 || c > 0x39 {
            proof {
                assert(digits[i - first] == c);
            }
            return None;
        }
        let ghost longer = digits.take(i - first + 1);
        proof {
            assert(digits[i - first] == c);
            assert(longer.drop_last() =~= digits.take(i - first));
            assert(longer.last() == c);
        }
        value = value * 10 + (c - 0x30) as u16;
        if value > 255 {
            proof {
                if forall|j: int| 0 <= j < digits.len() ==> is_digit(#[trigger] digits[j]) {
                    lemma_decimal_value_grows(digits, i - first + 1);
                }
            }
            return None;
        }
        i += 1;
    }
    proof {
        assert(digits.take(n - first) =~= digits);
    }
    Some(value as u8)
}

/// The part of `bytes` from `from` up to `to`.
pub fn part(bytes: &[u8], from: usize, to: usize) -> (r: &[u8])
    requires
        from <= to <= bytes@.len(),
    ensures
        r@ == bytes@.subrange(from as int, to as int),
{
    slice_subrange(bytes, from, to)
}

} // verus!
