//! Decimal numbers of eight bits as text: what a run of bytes denotes, and the
//! text that a number is written as.

use vstd::prelude::*;
use vstd::slice::slice_subrange;

verus! {

/// The byte `+`.
pub const PLUS_SIGN: u8 = 0x2B;

/// The byte `-`.
pub const MINUS_SIGN: u8 = 0x2D;

/// The byte `0`; the nine other digits follow it.
pub const DIGIT_ZERO: u8 = 0x30;

/// Whether `b` is one of the bytes `0` to `9`.
pub open spec fn is_digit(b: u8) -> bool {
    DIGIT_ZERO <= b <= DIGIT_ZERO + 9
}

/// Whether every byte of `s` is a decimal digit.
pub open spec fn all_digits(s: Seq<u8>) -> bool {
    forall|i: int| 0 <= i < s.len() ==> is_digit(#[trigger] s[i])
}

/// The number that the digit `b` stands for.
pub open spec fn digit_value(b: u8) -> nat {
    if is_digit(b) {
        (b - DIGIT_ZERO) as nat
    } else {
        0
    }
}

/// The number that a run of decimal digits stands for, leading zeros allowed.
pub open spec fn digits_value(s: Seq<u8>) -> nat
    decreases s.len(),
{
    if s.len() == 0 {
        0
    } else {
        digits_value(s.drop_last()) * 10 + digit_value(s.last())
    }
}

/// Whether `s` starts with a sign that a decimal number may carry: `+` always,
/// `-` only where the number is signed.
pub open spec fn has_sign(s: Seq<u8>, signed: bool) -> bool {
    s.len() > 0 && (s[0] == PLUS_SIGN || (signed && s[0] == MINUS_SIGN))
}

/// The digits of a decimal number: `s` without its sign.
pub open spec fn digits_of(s: Seq<u8>, signed: bool) -> Seq<u8> {
    if has_sign(s, signed) {
        s.drop_first()
    } else {
        s
    }
}

/// The integer that `s` denotes in decimal: an optional sign, then one digit
/// or more and nothing else. `None` for every other text.
pub open spec fn decimal(s: Seq<u8>, signed: bool) -> Option<int> {
    let digits = digits_of(s, signed);
    if digits.len() == 0 || !all_digits(digits) {
        None
    } else if signed && s[0] == MINUS_SIGN {
        Some(-(digits_value(digits) as int))
    } else {
        Some(digits_value(digits) as int)
    }
}

/// The signed 8-bit integer that `s` denotes, if it denotes one.
pub open spec fn signed_byte(s: Seq<u8>) -> Option<i8> {
    match decimal(s, true) {
        Some(v) => if i8::MIN <= v <= i8::MAX {
            Some(v as i8)
        } else {
            None
        },
        None => None,
    }
}

/// The unsigned 8-bit integer that `s` denotes, if it denotes one.
pub open spec fn unsigned_byte(s: Seq<u8>) -> Option<u8> {
    match decimal(s, false) {
        Some(v) => if v <= u8::MAX {
            Some(v as u8)
        } else {
            None
        },
        None => None,
    }
}

/// The decimal digits of a natural number, without leading zeros.
pub open spec fn digits_text(n: nat) -> Seq<u8>
    decreases n,
{
    if n < 10 {
        seq![(DIGIT_ZERO + n) as u8]
    } else {
        digits_text(n / 10).push((DIGIT_ZERO + n % 10) as u8)
    }
}

/// The decimal text of an integer: its digits, after a minus sign where it is
/// negative.
pub open spec fn decimal_text(v: int) -> Seq<u8> {
    if v < 0 {
        seq![MINUS_SIGN] + digits_text((-v) as nat)
    } else {
        digits_text(v as nat)
    }
}

/// A prefix of a run of digits stands for no more than the whole run.
pub proof fn lemma_digits_value_grows(s: Seq<u8>, n: int)
    requires
        0 <= n <= s.len(),
    ensures
        digits_value(s.take(n)) <= digits_value(s),
    decreases s.len(),
{
    if n == s.len() {
        assert(s.take(n) =~= s);
    } else {
        lemma_digits_value_grows(s.drop_last(), n);
        assert(s.drop_last().take(n) =~= s.take(n));
    }
}

/// Reads a run of decimal digits whose value is at most `limit`. `None` for
/// an empty run, for one that holds anything but digits, and for one that
/// stands for more than `limit`.
pub fn read_digits(digits: &[u8], limit: u32) -> (value: Option<u32>)
    requires
        limit * 10 + 9 <= u32::MAX,
    ensures
        match value {
            Some(v) => digits@.len() > 0 && all_digits(digits@) && v == digits_value(digits@)
                && v <= limit,
            None => digits@.len() == 0 || !all_digits(digits@) || digits_value(digits@) > limit,
        },
{
    if digits.len() == 0 {
        return None;
    }
    let mut total: u32 = 0;
    let mut i: usize = 0;
    while i < digits.len()
        invariant
            i <= digits@.len(),
            limit * 10 + 9 <= u32::MAX,
            forall|k: int| 0 <= k < i ==> is_digit(#[trigger] digits@[k]),
            total == digits_value(digits@.take(i as int)),
            total <= limit,
        decreases digits@.len() - i,
    {
        let b: u8 = digits[i];
        if b < DIGIT_ZERO || b > DIGIT_ZERO + 9 {
            return None;
        }
        proof {
            let upto = digits@.take(i + 1);
            assert(upto.drop_last() =~= digits@.take(i as int));
            assert(upto.last() == b);
        }
        total = total * 10 + (b - DIGIT_ZERO) as u32;
        if total > limit {
            proof {
                lemma_digits_value_grows(digits@, i + 1);
            }
            return None;
        }
        i += 1;
    }
    proof {
        assert(digits@.take(i as int) =~= digits@);
    }
    Some(total)
}

/// Parses a signed 8-bit decimal number.
pub fn parse_signed_byte(text: &[u8]) -> (value: Option<i8>)
    ensures
        value == signed_byte(text@),
{
    if text.len() == 0 {
        return None;
    }
    let negative: bool = text[0] == MINUS_SIGN;
    let signed: bool = negative || text[0] == PLUS_SIGN;
    let digits: &[u8] = if signed {
        slice_subrange(text, 1, text.len())
    } else {
        text
    };
    assert(digits@ =~= digits_of(text@, true));
    if negative {
        match read_digits(digits, 128) {
            Some(v) => Some((0 - v as i32) as i8),
            None => None,
        }
    } else {
        match read_digits(digits, 127) {
            Some(v) => Some(v as i8),
            None => None,
        }
    }
}

/// Parses an unsigned 8-bit decimal number.
pub fn parse_unsigned_byte(text: &[u8]) -> (value: Option<u8>)
    ensures
        value == unsigned_byte(text@),
{
    if text.len() == 0 {
        return None;
    }
    let digits: &[u8] = if text[0] == PLUS_SIGN {
        slice_subrange(text, 1, text.len())
    } else {
        text
    };
    assert(digits@ =~= digits_of(text@, false));
    match read_digits(digits, 255) {
        Some(v) => Some(v as u8),
        None => None,
    }
}

/// The digits that a number is written as stand for that number.
pub proof fn lemma_digits_text_reads_back(n: nat)
    ensures
        digits_text(n).len() > 0,
        all_digits(digits_text(n)),
        digits_value(digits_text(n)) == n,
    decreases n,
{
    let text = digits_text(n);
    if n < 10 {
        assert(text.drop_last() =~= Seq::<u8>::empty());
        assert(digits_value(text.drop_last()) == 0);
        assert(is_digit(text[0]));
    } else {
        lemma_digits_text_reads_back(n / 10);
        assert(text.drop_last() =~= digits_text(n / 10));
        assert(is_digit(text.last()));
        assert forall|i: int| 0 <= i < text.len() implies is_digit(#[trigger] text[i]) by {
            if i < text.len() - 1 {
                assert(text[i] == digits_text(n / 10)[i]);
            }
        }
    }
}

/// The text that an integer is written as denotes that integer: always as a
/// signed number, and as an unsigned one where it is not negative.
pub proof fn lemma_decimal_text_reads_back(v: int, signed: bool)
    requires
        signed || v >= 0,
    ensures
        decimal(decimal_text(v), signed) == Some(v),
        forall|i: int|
            0 <= i < decimal_text(v).len() ==> is_digit(#[trigger] decimal_text(v)[i])
                || decimal_text(v)[i] == MINUS_SIGN,
{
    let text = decimal_text(v);
    if v < 0 {
        lemma_digits_text_reads_back((-v) as nat);
        assert(text.drop_first() =~= digits_text((-v) as nat));
        assert forall|i: int| 0 <= i < text.len() implies is_digit(#[trigger] text[i]) || text[i]
            == MINUS_SIGN by {
            if i > 0 {
                assert(text[i] == digits_text((-v) as nat)[i - 1]);
            }
        }
    } else {
        lemma_digits_text_reads_back(v as nat);
        assert(is_digit(text[0]));
    }
}

/// Every number of eight bits is read back from the text it is written as.
pub proof fn lemma_bytes_read_back(temperature: i8, humidity: u8)
    ensures
        signed_byte(decimal_text(temperature as int)) == Some(temperature),
        unsigned_byte(decimal_text(humidity as int)) == Some(humidity),
{
    lemma_decimal_text_reads_back(temperature as int, true);
    lemma_decimal_text_reads_back(humidity as int, false);
}

} // verus!
