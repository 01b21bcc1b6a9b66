//! Field parsing: from the bytes of a candidate frame to a temperature and a
//! humidity.
//!
//! A frame is a run of segments separated by `;`. A segment is a run of tokens
//! separated by `,`. The first segment whose first two tokens are both longer
//! than one byte is the record of the frame: its first token is the
//! temperature (`t` and a signed decimal), its second the humidity (`h` and an
//! unsigned decimal). Everything is stated over the bytes of the frame, since
//! token lengths are byte lengths.

use vstd::prelude::*;
use vstd::slice::slice_subrange;
use crate::decimal::{
    decimal, digits_of, has_sign, is_digit, parse_signed_byte, parse_unsigned_byte, signed_byte,
    unsigned_byte,
};

verus! {

/// Byte that ends a segment of a frame.
pub const FRAME_DELIMITER: u8 = 0x3B;

/// Byte that separates the tokens of a segment.
pub const FIELD_SEPARATOR: u8 = 0x2C;

/// Literal prefix of a temperature token.
pub const TEMPERATURE_PREFIX: u8 = 0x74;

/// Literal prefix of a humidity token.
pub const HUMIDITY_PREFIX: u8 = 0x68;

/// Length of the longest prefix of `s` that holds no `stop` byte.
pub open spec fn run_len(s: Seq<u8>, stop: u8) -> nat
    decreases s.len(),
{
    if s.len() == 0 || s[0] == stop {
        0
    } else {
        1 + run_len(s.drop_first(), stop)
    }
}

/// The piece of `s` before its first `stop` byte: all of `s` where it holds none.
pub open spec fn first_piece(s: Seq<u8>, stop: u8) -> Seq<u8> {
    s.take(run_len(s, stop) as int)
}

/// Whether `s` holds a `stop` byte, so that something follows its first piece.
pub open spec fn has_more(s: Seq<u8>, stop: u8) -> bool {
    run_len(s, stop) < s.len()
}

/// What follows the first `stop` byte of `s`. Meaningful where `has_more(s, stop)`.
pub open spec fn after_piece(s: Seq<u8>, stop: u8) -> Seq<u8> {
    s.skip(run_len(s, stop) as int + 1)
}

/// The two tokens of a segment, where it qualifies as a record: it holds a
/// separator, and its first and second tokens are each longer than one byte.
/// Tokens after the second are not looked at.
pub open spec fn segment_tokens(segment: Seq<u8>) -> Option<(Seq<u8>, Seq<u8>)> {
    let first = first_piece(segment, FIELD_SEPARATOR);
    let second = first_piece(after_piece(segment, FIELD_SEPARATOR), FIELD_SEPARATOR);
    if has_more(segment, FIELD_SEPARATOR) && first.len() > 1 && second.len() > 1 {
        Some((first, second))
    } else {
        None
    }
}

/// The tokens of the first segment of `frame` that qualifies, if one does.
pub open spec fn select_tokens(frame: Seq<u8>) -> Option<(Seq<u8>, Seq<u8>)>
    decreases frame.len(),
{
    let found = segment_tokens(first_piece(frame, FRAME_DELIMITER));
    if found is Some {
        found
    } else if has_more(frame, FRAME_DELIMITER) {
        select_tokens(after_piece(frame, FRAME_DELIMITER))
    } else {
        None
    }
}

/// `token` without one leading `prefix` byte; `token` itself where it does not
/// start with one.
pub open spec fn strip_prefix(token: Seq<u8>, prefix: u8) -> Seq<u8> {
    if token.len() > 0 && token[0] == prefix {
        token.drop_first()
    } else {
        token
    }
}

/// The temperature and humidity that two tokens denote: each token loses its
/// literal prefix and must then be a decimal number of its type. Both or
/// neither.
pub open spec fn token_fields(temperature: Seq<u8>, humidity: Seq<u8>) -> Option<(i8, u8)> {
    match (
        signed_byte(strip_prefix(temperature, TEMPERATURE_PREFIX)),
        unsigned_byte(strip_prefix(humidity, HUMIDITY_PREFIX)),
    ) {
        (Some(t), Some(h)) => Some((t, h)),
        _ => None,
    }
}

/// The reading that a frame carries: the fields of its first qualifying
/// segment. `None` where no segment qualifies or where either token of the one
/// that does fails to parse; later segments are never tried.
pub open spec fn frame_fields(frame: Seq<u8>) -> Option<(i8, u8)> {
    match select_tokens(frame) {
        Some((temperature, humidity)) => token_fields(temperature, humidity),
        None => None,
    }
}

/// A prefix of `n` bytes without `stop`, ending at a `stop` byte or at the end
/// of `s`, is the first piece of `s`.
pub proof fn lemma_run_len_is(s: Seq<u8>, stop: u8, n: int)
    requires
        0 <= n <= s.len(),
        forall|i: int| 0 <= i < n ==> s[i] != stop,
        n < s.len() ==> s[n] == stop,
    ensures
        run_len(s, stop) == n,
    decreases n,
{
    if n > 0 {
        lemma_run_len_is(s.drop_first(), stop, n - 1);
    }
}

/// The first piece holds no `stop` byte, and a `stop` byte follows it unless it
/// is all of `s`.
pub proof fn lemma_run_len_bounds(s: Seq<u8>, stop: u8)
    ensures
        run_len(s, stop) <= s.len(),
        forall|i: int| 0 <= i < run_len(s, stop) ==> s[i] != stop,
        run_len(s, stop) < s.len() ==> s[run_len(s, stop) as int] == stop,
    decreases s.len(),
{
    if s.len() > 0 && s[0] != stop {
        let rest = s.drop_first();
        lemma_run_len_bounds(rest, stop);
        assert forall|i: int| 0 <= i < run_len(s, stop) implies s[i] != stop by {
            if i > 0 {
                assert(s[i] == rest[i - 1]);
            }
        }
    }
}

/// Index of the first `stop` byte of `bytes`; its length where it holds none.
pub fn scan_until(bytes: &[u8], stop: u8) -> (n: usize)
    ensures
        n == run_len(bytes@, stop),
        n <= bytes@.len(),
{
    let mut i: usize = 0;
    while i < bytes.len() && bytes[i] != stop
        invariant
            i <= bytes@.len(),
            forall|k: int| 0 <= k < i ==> bytes@[k] != stop,
        decreases bytes@.len() - i,
    {
        i += 1;
    }
    proof {
        lemma_run_len_is(bytes@, stop, i as int);
    }
    i
}

/// Splits a segment into its two tokens where it qualifies as a record.
pub fn split_segment(segment: &[u8]) -> (tokens: Option<(&[u8], &[u8])>)
    ensures
        match tokens {
            Some((first, second)) => segment_tokens(segment@) == Some((first@, second@)),
            None => segment_tokens(segment@) is None,
        },
{
    let cut = scan_until(segment, FIELD_SEPARATOR);
    if cut >= segment.len() {
        return None;
    }
    let first = slice_subrange(segment, 0, cut);
    let rest = slice_subrange(segment, cut + 1, segment.len());
    let end = scan_until(rest, FIELD_SEPARATOR);
    let second = slice_subrange(rest, 0, end);
    if first.len() > 1 && second.len() > 1 {
        Some((first, second))
    } else {
        None
    }
}

/// Finds the tokens of the first qualifying segment of a frame.
pub fn find_record(frame: &[u8]) -> (tokens: Option<(&[u8], &[u8])>)
    ensures
        match tokens {
            Some((first, second)) => select_tokens(frame@) == Some((first@, second@)),
            None => select_tokens(frame@) is None,
        },
{
    let mut rest: &[u8] = frame;
    loop
        invariant
            select_tokens(frame@) == select_tokens(rest@),
        decreases rest@.len(),
    {
        let cut = scan_until(rest, FRAME_DELIMITER);
        let segment = slice_subrange(rest, 0, cut);
        let found = split_segment(segment);
        if found.is_some() {
            return found;
        }
        if cut >= rest.len() {
            return None;
        }
        rest = slice_subrange(rest, cut + 1, rest.len());
    }
}

/// Removes one leading `prefix` byte from a token, if it starts with one.
pub fn without_prefix(token: &[u8], prefix: u8) -> (rest: &[u8])
    ensures
        rest@ == strip_prefix(token@, prefix),
{
    if token.len() > 0 && token[0] == prefix {
        slice_subrange(token, 1, token.len())
    } else {
        token
    }
}

/// Parses the bytes of a candidate frame into a temperature and a humidity.
///
/// Returns the fields of the first qualifying segment, and `None` where no
/// segment qualifies or one of its two tokens is no number of its type.
pub fn parse_frame_bytes(frame: &[u8]) -> (fields: Option<(i8, u8)>)
    ensures
        fields == frame_fields(frame@),
{
    match find_record(frame) {
        Some((first, second)) => {
            let temperature = parse_signed_byte(without_prefix(first, TEMPERATURE_PREFIX));
            let humidity = parse_unsigned_byte(without_prefix(second, HUMIDITY_PREFIX));
            match (temperature, humidity) {
                (Some(t), Some(h)) => Some((t, h)),
                _ => None,
            }
        },
        None => None,
    }
}

/// Parses the text of a candidate frame into a temperature and a humidity: the
/// fields that its UTF-8 bytes carry.
pub fn parse_frame(frame: &str) -> (fields: Option<(i8, u8)>)
    ensures
        fields == frame_fields(vstd::utf8::encode_utf8(frame@)),
{
    parse_frame_bytes(frame.as_bytes())
}

/// Whether `s` holds no `stop` byte.
pub open spec fn free_of(s: Seq<u8>, stop: u8) -> bool {
    forall|i: int| 0 <= i < s.len() ==> s[i] != stop
}

/// A segment followed by a delimiter is the first piece of the frame, and what
/// follows the delimiter is the rest of it.
pub proof fn lemma_split_at_delimiter(segment: Seq<u8>, rest: Seq<u8>, stop: u8)
    requires
        free_of(segment, stop),
    ensures
        first_piece(segment + seq![stop] + rest, stop) == segment,
        has_more(segment + seq![stop] + rest, stop),
        after_piece(segment + seq![stop] + rest, stop) == rest,
{
    let whole = segment + seq![stop] + rest;
    lemma_run_len_is(whole, stop, segment.len() as int);
    assert(whole.take(segment.len() as int) =~= segment);
    assert(whole.skip(segment.len() as int + 1) =~= rest);
}

/// A text without a `stop` byte is one piece.
pub proof fn lemma_single_piece(s: Seq<u8>, stop: u8)
    requires
        free_of(s, stop),
    ensures
        first_piece(s, stop) == s,
        !has_more(s, stop),
{
    lemma_run_len_is(s, stop, s.len() as int);
    assert(s.take(s.len() as int) =~= s);
}

/// The first segment that qualifies decides: whatever follows its delimiter is
/// ignored.
pub proof fn lemma_first_record_wins(segment: Seq<u8>, rest: Seq<u8>)
    requires
        free_of(segment, FRAME_DELIMITER),
        segment_tokens(segment) is Some,
    ensures
        select_tokens(segment + seq![FRAME_DELIMITER] + rest) == segment_tokens(segment),
        frame_fields(segment + seq![FRAME_DELIMITER] + rest) == frame_fields(segment),
{
    lemma_split_at_delimiter(segment, rest, FRAME_DELIMITER);
    lemma_single_piece(segment, FRAME_DELIMITER);
}

/// A segment that does not qualify is passed over: the frame carries what the
/// segments after it carry.
pub proof fn lemma_unqualified_segment_skipped(segment: Seq<u8>, rest: Seq<u8>)
    requires
        free_of(segment, FRAME_DELIMITER),
        segment_tokens(segment) is None,
    ensures
        select_tokens(segment + seq![FRAME_DELIMITER] + rest) == select_tokens(rest),
        frame_fields(segment + seq![FRAME_DELIMITER] + rest) == frame_fields(rest),
{
    lemma_split_at_delimiter(segment, rest, FRAME_DELIMITER);
}

/// A frame of one segment that does not qualify, such as one whose temperature
/// token is a single byte, carries no reading.
pub proof fn lemma_unqualified_frame_rejected(frame: Seq<u8>)
    requires
        free_of(frame, FRAME_DELIMITER),
        segment_tokens(frame) is None,
    ensures
        frame_fields(frame) is None,
{
    lemma_single_piece(frame, FRAME_DELIMITER);
}

/// A decimal number holds neither a frame delimiter nor a field separator, and
/// does not start with a field prefix.
pub proof fn lemma_decimal_bytes(s: Seq<u8>, signed: bool)
    requires
        decimal(s, signed) is Some,
    ensures
        s.len() > 0,
        free_of(s, FRAME_DELIMITER),
        free_of(s, FIELD_SEPARATOR),
        s[0] != TEMPERATURE_PREFIX,
        s[0] != HUMIDITY_PREFIX,
{
    let digits = digits_of(s, signed);
    assert forall|i: int| 0 <= i < s.len() implies s[i] != FRAME_DELIMITER && s[i]
        != FIELD_SEPARATOR && (i == 0 ==> s[i] != TEMPERATURE_PREFIX && s[i] != HUMIDITY_PREFIX) by {
        if has_sign(s, signed) {
            if i > 0 {
                assert(is_digit(digits[i - 1]));
            }
        } else {
            assert(is_digit(digits[i]));
        }
    }
}

/// A frame that starts with `t`, a signed decimal, `,`, `h`, an unsigned
/// decimal and `;` carries these two numbers, whatever follows the `;`.
pub proof fn lemma_well_formed_frame(temperature: Seq<u8>, humidity: Seq<u8>, rest: Seq<u8>)
    requires
        signed_byte(temperature) is Some,
        unsigned_byte(humidity) is Some,
    ensures
        frame_fields(
            seq![TEMPERATURE_PREFIX] + temperature + seq![FIELD_SEPARATOR] + seq![HUMIDITY_PREFIX]
                + humidity + seq![FRAME_DELIMITER] + rest,
        ) == Some((signed_byte(temperature).unwrap(), unsigned_byte(humidity).unwrap())),
{
    lemma_decimal_bytes(temperature, true);
    lemma_decimal_bytes(humidity, false);
    let first = seq![TEMPERATURE_PREFIX] + temperature;
    let second = seq![HUMIDITY_PREFIX] + humidity;
    let segment = first + seq![FIELD_SEPARATOR] + second;
    assert(free_of(first, FIELD_SEPARATOR));
    assert(free_of(second, FIELD_SEPARATOR));
    lemma_split_at_delimiter(first, second, FIELD_SEPARATOR);
    lemma_single_piece(second, FIELD_SEPARATOR);
    assert(segment_tokens(segment) == Some((first, second)));
    assert(strip_prefix(first, TEMPERATURE_PREFIX) =~= temperature);
    assert(strip_prefix(second, HUMIDITY_PREFIX) =~= humidity);
    assert(free_of(segment, FRAME_DELIMITER));
    lemma_first_record_wins(segment, rest);
    lemma_single_piece(segment, FRAME_DELIMITER);
    assert(segment + seq![FRAME_DELIMITER] + rest =~= seq![TEMPERATURE_PREFIX] + temperature
        + seq![FIELD_SEPARATOR] + seq![HUMIDITY_PREFIX] + humidity + seq![FRAME_DELIMITER] + rest);
}

} // verus!
