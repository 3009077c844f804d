//! Decimal text for 8-bit unsigned numbers, on ASCII bytes.

use vstd::prelude::*;

verus! {

/// ASCII `0`.
pub const DIGIT_ZERO: u8 = 0x30;

/// ASCII `+`.
pub const PLUS: u8 = 0x2b;

/// True for the ASCII digits `0` to `9`.
pub open spec fn is_digit(byte: u8) -> bool {
    0x30 <= byte <= 0x39
}

/// True when every byte of `text` is an ASCII digit.
pub open spec fn all_digits(text: Seq<u8>) -> bool {
    forall|i: int| 0 <= i < text.len() ==> is_digit(#[trigger] text[i])
}

/// The number that a run of ASCII digits denotes in base ten, most
/// significant digit first. The empty run denotes zero.
pub open spec fn digits_value(text: Seq<u8>) -> nat
    decreases text.len(),
{
    if text.len() == 0 {
        0
    } else {
        (digits_value(text.drop_last()) * 10 + (text.last() - 0x30)) as nat
    }
}

/// The digits of a number text: the text without one leading `+`, if it has
/// one.
pub open spec fn unsigned_part(text: Seq<u8>) -> Seq<u8> {
    if text.len() > 0 && text[0] == 0x2b {
        text.subrange(1, text.len() as int)
    } else {
        text
    }
}

/// The 8-bit number that `text` denotes: an optional `+`, then one or more
/// ASCII digits whose value is at most 255. Leading zeros are allowed. Any
/// other text denotes nothing.
pub open spec fn spec_parse_u8(text: Seq<u8>) -> Option<u8> {
    let digits = unsigned_part(text);
    if digits.len() > 0 && all_digits(digits) && digits_value(digits) <= 255 {
        Some(digits_value(digits) as u8)
    } else {
        None
    }
}

/// The decimal digits of `value`, most significant first, without leading
/// zeros.
pub open spec fn spec_decimal(value: nat) -> Seq<u8>
    decreases value,
{
    if value < 10 {
        seq![(0x30 + value) as u8]
    } else {
        spec_decimal(value / 10).push((0x30 + value % 10) as u8)
    }
}

/// A run of digits is worth at least as much as any prefix of it.
pub proof fn lemma_digits_value_prefix(text: Seq<u8>, n: int)
    requires
        0 <= n <= text.len(),
        all_digits(text),
    ensures
        digits_value(text.take(n)) <= digits_value(text),
    decreases text.len() - n,
{
    if n == text.len() {
        assert(text.take(n) =~= text);
    } else {
        lemma_digits_value_prefix(text, n + 1);
        let longer = text.take(n + 1);
        assert(longer.drop_last() =~= text.take(n));
        assert(is_digit(text[n]));
        assert(longer.last() == text[n]);
    }
}

/// The decimal digits of a number are digits, at least one of them, and
/// denote that number.
pub proof fn lemma_decimal_denotes(value: nat)
    ensures
        spec_decimal(value).len() > 0,
        all_digits(spec_decimal(value)),
        digits_value(spec_decimal(value)) == value,
    decreases value,
{
    let text = spec_decimal(value);
    if value < 10 {
        assert(text.drop_last() =~= Seq::<u8>::empty());
        assert(digits_value(text.drop_last()) == 0);
    } else {
        lemma_decimal_denotes(value / 10);
        assert(text.drop_last() =~= spec_decimal(value / 10));
    }
}

/// Writing an 8-bit number in decimal and reading the text again gives the
/// number back.
pub proof fn lemma_decimal_round_trip(value: u8)
    ensures
        spec_parse_u8(spec_decimal(value as nat)) == Some(value),
{
    lemma_decimal_denotes(value as nat);
    let text = spec_decimal(value as nat);
    assert(is_digit(text[0]));
}

/// Reads `text` as an 8-bit unsigned decimal number.
pub fn parse_u8(text: &[u8]) -> (value: Option<u8>)
    ensures
        value == spec_parse_u8(text@),
{
    let n: usize = text.len();
    let start: usize = if n > 0 && text[0] == PLUS { 1 } else { 0 };
    let ghost digits = unsigned_part(text@);
    assert(digits =~= text@.subrange(start as int, n as int));
    if start == n {
        return None;
    }
    let mut acc: u16 = 0;
    let mut i: usize = start;
    assert(digits.take(0) =~= Seq::<u8>::empty());
    while i < n
        invariant
            start <= i <= n,
            n == text@.len(),
            digits == unsigned_part(text@),
            digits == text@.subrange(start as int, n as int),
            all_digits(digits.take(i - start)),
            acc as nat == digits_value(digits.take(i - start)),
            acc <= 255,
        decreases n - i,
    {
        let byte: u8 = text[i];
        let ghost seen = digits.take(i - start);
        let ghost longer = digits.take(i + 1 - start);
        assert(digits[i - start] == byte);
        if byte < 0x30 || byte > 0x39 {
            assert(!is_digit(digits[i - start]));
            return None;
        }
        assert(longer.drop_last() =~= seen);
        assert(longer.last() == byte);
        assert(all_digits(longer)) by {
            assert forall|k: int| 0 <= k < longer.len() implies is_digit(#[trigger] longer[k]) by {
                if k < seen.len() {
                    assert(longer[k] == seen[k]);
                }
            }
        }
        let next: u16 = acc * 10 + (byte - DIGIT_ZERO) as u16;
        assert(next as nat == digits_value(longer));
        if next > 255 {
            proof {
                if all_digits(digits) {
                    lemma_digits_value_prefix(digits, i + 1 - start);
                }
            }
            return None;
        }
        acc = next;
        i = i + 1;
    }
    assert(digits.take(n - start) =~= digits);
    Some(acc as u8)
}

/// Writes `value` in decimal, without leading zeros.
pub fn format_u8(value: u8) -> (text: Vec<u8>)
    ensures
        text@ == spec_decimal(value as nat),
{
    let mut text: Vec<u8> = Vec::new();
    if value >= 100 {
        text.push(DIGIT_ZERO + value / 100);
    }
    if value >= 10 {
        text.push(DIGIT_ZERO + (value / 10) % 10);
    }
    text.push(DIGIT_ZERO + value % 10);
    proof {
        reveal_with_fuel(spec_decimal, 3);
        assert(text@ =~= spec_decimal(value as nat));
    }
    text
}

} // verus!
