//! The batch writer: each reading of a batch becomes one comma-separated
//! record of three fields, without a header row. The bytes are made here; to
//! append them to the store is left to the caller.

use vstd::prelude::*;
use vstd::utf8::{encode_utf8, encode_utf8_decode_utf8, decode_utf8};
use crate::decimal::{
    decimal_text, is_digit, lemma_bytes_read_back, lemma_decimal_text_reads_back, signed_byte,
    unsigned_byte, MINUS_SIGN,
};
use crate::fields::{
    after_piece, first_piece, free_of, has_more, lemma_single_piece, lemma_split_at_delimiter,
    FIELD_SEPARATOR,
};
use crate::reading::{Reading, ReadingView};

verus! {

/// The error type of the `csv` crate.
#[verifier::external_type_specification]
#[verifier::external_body]
pub struct ExCsvError(csv::Error);

/// The byte `"`, which opens and closes a quoted field.
pub const QUOTE: u8 = 0x22;

/// The byte that ends a record.
pub const LINE_FEED: u8 = 0x0A;

/// The byte that a reader takes for the end of a record as well.
pub const CARRIAGE_RETURN: u8 = 0x0D;

/// Whether a byte makes the field that holds it be written in quotes: the
/// delimiter, the quote, and the two bytes that end a line.
pub open spec fn forces_quotes(b: u8, delimiter: u8) -> bool {
    b == delimiter || b == QUOTE || b == CARRIAGE_RETURN || b == LINE_FEED
}

/// Whether a field is written as it is: none of its bytes forces quotes.
pub open spec fn written_plain(field: Seq<u8>, delimiter: u8) -> bool {
    forall|i: int| 0 <= i < field.len() ==> !forces_quotes(#[trigger] field[i], delimiter)
}

/// Whether each of the three fields of a record is written as it is.
pub open spec fn all_plain(
    delimiter: u8,
    temperature: i8,
    humidity: u8,
    captured_at: Seq<char>,
) -> bool {
    &&& written_plain(decimal_text(temperature as int), delimiter)
    &&& written_plain(decimal_text(humidity as int), delimiter)
    &&& written_plain(encode_utf8(captured_at), delimiter)
}

/// A record of three fields written as they are: the two numbers in decimal
/// and the bytes of the capture time, with a delimiter between two fields and
/// a line feed at the end.
pub open spec fn plain_record(
    delimiter: u8,
    temperature: i8,
    humidity: u8,
    captured_at: Seq<char>,
) -> Seq<u8> {
    decimal_text(temperature as int) + seq![delimiter] + decimal_text(humidity as int)
        + seq![delimiter] + encode_utf8(captured_at) + seq![LINE_FEED]
}

/// The record that the `csv` crate writes for the three fields of a reading,
/// with the given field delimiter and without a header row: its bytes, the
/// record terminator included. `None` where the crate reports an error for
/// these fields.
pub uninterp spec fn csv_record(
    delimiter: u8,
    temperature: i8,
    humidity: u8,
    captured_at: Seq<char>,
) -> Option<Seq<u8>>;

/// Encodes three fields as one record.
///
/// Trusted: builds a `csv::Writer` over a byte vector with
/// `csv::WriterBuilder` (no header row, the given delimiter), writes the
/// fields with `Writer::serialize` and takes the bytes with
/// `Writer::into_inner`. The writer wraps memory alone, so the outcome is a
/// function of the four arguments: it is named, the bytes where the crate
/// writes the record and nothing where it reports an error. Where no field
/// holds a byte that forces quotes, the bytes are the plain record: the crate
/// writes integers in decimal and such fields as they are. On which fields the
/// crate reports an error is not claimed.
#[verifier::external_body]
fn csv_encode(delimiter: u8, temperature: i8, humidity: u8, captured_at: &str) -> (row: Result<
    Vec<u8>,
    csv::Error,
>)
    ensures
        match row {
            Ok(bytes) => csv_record(delimiter, temperature, humidity, captured_at@) == Some(
                bytes@,
            ),
            Err(_) => csv_record(delimiter, temperature, humidity, captured_at@) is None,
        },
        row matches Ok(bytes) ==> all_plain(delimiter, temperature, humidity, captured_at@)
            ==> bytes@ == plain_record(delimiter, temperature, humidity, captured_at@),
{
    let mut writer =
        csv::WriterBuilder::new().has_headers(false).delimiter(delimiter).from_writer(Vec::new());
    writer.serialize((temperature, humidity, captured_at))?;
    match writer.into_inner() {
        Ok(bytes) => Ok(bytes),
        Err(e) => Err(csv::Error::from(e.into_error())),
    }
}

/// The message of an error of the `csv` crate.
///
/// Trusted: formats the error with its `Display` impl. Nothing is claimed of
/// the text.
#[verifier::external_body]
fn csv_error_text(error: &csv::Error) -> (text: String) {
    format!("{}", error)
}

/// Why a reading could not be encoded.
#[derive(Debug)]
pub struct EncodeError {
    /// What the encoder said.
    pub message: String,
}

/// The record of a reading: its temperature, its humidity and its capture
/// time, separated by commas. `None` where the encoder refuses the reading.
pub open spec fn record_of(reading: ReadingView) -> Option<Seq<u8>> {
    csv_record(FIELD_SEPARATOR, reading.temperature, reading.humidity, reading.captured_at)
}

/// Whether the capture time of a reading is written as it is: it holds no
/// comma, no quote and no end of line.
pub open spec fn plainly_timed(reading: ReadingView) -> bool {
    written_plain(encode_utf8(reading.captured_at), FIELD_SEPARATOR)
}

/// The record of a reading whose capture time is written as it is.
pub open spec fn plain_record_of(reading: ReadingView) -> Seq<u8> {
    plain_record(FIELD_SEPARATOR, reading.temperature, reading.humidity, reading.captured_at)
}

/// Whether `bytes` are the record of `reading`: what the encoder writes for
/// it, which for a capture time written as it is is the plain record.
pub open spec fn is_record_of(bytes: Seq<u8>, reading: ReadingView) -> bool {
    &&& record_of(reading) == Some(bytes)
    &&& plainly_timed(reading) ==> bytes == plain_record_of(reading)
}

/// What a reader of three comma-separated columns makes of a record without
/// quotes: the line up to the line feed must split into exactly three fields,
/// of which the first is a signed and the second an unsigned number of eight
/// bits; the third is handed back as its bytes.
pub open spec fn read_back(record: Seq<u8>) -> Option<(i8, u8, Seq<u8>)> {
    let line = first_piece(record, LINE_FEED);
    let first = first_piece(line, FIELD_SEPARATOR);
    let rest = after_piece(line, FIELD_SEPARATOR);
    let second = first_piece(rest, FIELD_SEPARATOR);
    let third = after_piece(rest, FIELD_SEPARATOR);
    if has_more(line, FIELD_SEPARATOR) && has_more(rest, FIELD_SEPARATOR) && !has_more(
        third,
        FIELD_SEPARATOR,
    ) {
        match (signed_byte(first), unsigned_byte(second)) {
            (Some(temperature), Some(humidity)) => Some((temperature, humidity, third)),
            _ => None,
        }
    } else {
        None
    }
}

/// The decimal text of a number of eight bits is written as it is.
pub proof fn lemma_numbers_written_plain(temperature: i8, humidity: u8)
    ensures
        written_plain(decimal_text(temperature as int), FIELD_SEPARATOR),
        written_plain(decimal_text(humidity as int), FIELD_SEPARATOR),
        free_of(decimal_text(temperature as int), FIELD_SEPARATOR),
        free_of(decimal_text(humidity as int), FIELD_SEPARATOR),
        free_of(decimal_text(temperature as int), LINE_FEED),
        free_of(decimal_text(humidity as int), LINE_FEED),
{
    lemma_decimal_text_reads_back(temperature as int, true);
    lemma_decimal_text_reads_back(humidity as int, false);
    let t = decimal_text(temperature as int);
    let h = decimal_text(humidity as int);
    assert forall|i: int| 0 <= i < t.len() implies !forces_quotes(#[trigger] t[i], FIELD_SEPARATOR)
        && t[i] != FIELD_SEPARATOR && t[i] != LINE_FEED by {
        assert(is_digit(t[i]) || t[i] == MINUS_SIGN);
    }
    assert forall|i: int| 0 <= i < h.len() implies !forces_quotes(#[trigger] h[i], FIELD_SEPARATOR)
        && h[i] != FIELD_SEPARATOR && h[i] != LINE_FEED by {
        assert(is_digit(h[i]) || h[i] == MINUS_SIGN);
    }
}

/// Round trip: the plain record of a reading, read back as three columns,
/// gives the temperature, the humidity and the bytes of the capture time of
/// that reading, and these bytes decode to the capture time.
pub proof fn lemma_plain_record_reads_back(reading: ReadingView)
    requires
        plainly_timed(reading),
    ensures
        read_back(plain_record_of(reading)) == Some(
            (reading.temperature, reading.humidity, encode_utf8(reading.captured_at)),
        ),
        decode_utf8(encode_utf8(reading.captured_at)) == reading.captured_at,
{
    let t = decimal_text(reading.temperature as int);
    let h = decimal_text(reading.humidity as int);
    let c = encode_utf8(reading.captured_at);
    let comma = seq![FIELD_SEPARATOR];
    let line = t + comma + h + comma + c;
    let record = plain_record_of(reading);
    lemma_numbers_written_plain(reading.temperature, reading.humidity);
    lemma_bytes_read_back(reading.temperature, reading.humidity);
    encode_utf8_decode_utf8(reading.captured_at);
    assert(free_of(c, FIELD_SEPARATOR) && free_of(c, LINE_FEED)) by {
        assert forall|i: int| 0 <= i < c.len() implies c[i] != FIELD_SEPARATOR && c[i]
            != LINE_FEED by {
            assert(!forces_quotes(c[i], FIELD_SEPARATOR));
        }
    }
    assert(free_of(line, LINE_FEED));
    assert(record =~= line + seq![LINE_FEED] + Seq::<u8>::empty());
    lemma_split_at_delimiter(line, Seq::<u8>::empty(), LINE_FEED);
    assert(line =~= t + comma + (h + comma + c));
    lemma_split_at_delimiter(t, h + comma + c, FIELD_SEPARATOR);
    lemma_split_at_delimiter(h, c, FIELD_SEPARATOR);
    lemma_single_piece(c, FIELD_SEPARATOR);
}

/// The bytes that a batch contributes to the store, given the outcome of
/// encoding each of its readings: the records of those that were encoded, in
/// the order of the batch. A reading that failed contributes nothing and
/// holds back none of the others.
pub open spec fn stored_bytes(rows: Seq<Option<Seq<u8>>>) -> Seq<u8>
    decreases rows.len(),
{
    if rows.len() == 0 {
        Seq::empty()
    } else {
        match rows.last() {
            Some(bytes) => stored_bytes(rows.drop_last()) + bytes,
            None => stored_bytes(rows.drop_last()),
        }
    }
}

/// The outcomes of encoding, as the contracts see them: the bytes of each
/// record that was encoded.
pub open spec fn row_views(rows: Seq<Result<Vec<u8>, EncodeError>>) -> Seq<Option<Seq<u8>>> {
    rows.map_values(
        |row: Result<Vec<u8>, EncodeError>|
            match row {
                Ok(bytes) => Some(bytes@),
                Err(_) => None,
            },
    )
}

/// Encodes one reading as one record. The encoding succeeds exactly where
/// the reading has a record, and the bytes are that record; it fails exactly
/// where the encoder refuses the reading. For a capture time without comma,
/// quote and end of line the record is the plain record, which reads back as
/// the reading.
pub fn encode_reading(reading: &Reading) -> (row: Result<Vec<u8>, EncodeError>)
    ensures
        match row {
            Ok(bytes) => is_record_of(bytes@, reading@),
            Err(_) => record_of(reading@) is None,
        },
        row matches Ok(bytes) ==> plainly_timed(reading@) ==> read_back(bytes@) == Some(
            (reading@.temperature, reading@.humidity, encode_utf8(reading@.captured_at)),
        ),
{
    proof {
        lemma_numbers_written_plain(reading.temperature, reading.humidity);
        if plainly_timed(reading@) {
            lemma_plain_record_reads_back(reading@);
        }
    }
    match csv_encode(
        FIELD_SEPARATOR,
        reading.temperature,
        reading.humidity,
        reading.captured_at.as_str(),
    ) {
        Ok(bytes) => Ok(bytes),
        Err(e) => Err(EncodeError { message: csv_error_text(&e) }),
    }
}

/// Encodes every reading of a batch, in order: one outcome per reading, the
/// record where the reading has one and an error where it has none. A reading
/// that fails does not stop the ones after it.
pub fn encode_batch(batch: &Vec<Reading>) -> (rows: Vec<Result<Vec<u8>, EncodeError>>)
    ensures
        rows@.len() == batch@.len(),
        forall|i: int|
            0 <= i < rows@.len() ==> match #[trigger] rows@[i] {
                Ok(bytes) => is_record_of(bytes@, batch@[i]@),
                Err(_) => record_of(batch@[i]@) is None,
            },
{
    let mut rows: Vec<Result<Vec<u8>, EncodeError>> = Vec::new();
    let mut i: usize = 0;
    while i < batch.len()
        invariant
            i <= batch@.len(),
            rows@.len() == i,
            forall|k: int|
                0 <= k < i ==> match #[trigger] rows@[k] {
                    Ok(bytes) => is_record_of(bytes@, batch@[k]@),
                    Err(_) => record_of(batch@[k]@) is None,
                },
        decreases batch@.len() - i,
    {
        let row = encode_reading(&batch[i]);
        rows.push(row);
        i += 1;
    }
    rows
}

/// Joins the records that were encoded into the bytes to append to the
/// store.
pub fn join_rows(rows: &Vec<Result<Vec<u8>, EncodeError>>) -> (bytes: Vec<u8>)
    ensures
        bytes@ == stored_bytes(row_views(rows@)),
{
    let mut bytes: Vec<u8> = Vec::new();
    let mut i: usize = 0;
    while i < rows.len()
        invariant
            i <= rows@.len(),
            bytes@ == stored_bytes(row_views(rows@.take(i as int))),
        decreases rows@.len() - i,
    {
        proof {
            let upto = row_views(rows@.take(i + 1));
            assert(upto.drop_last() =~= row_views(rows@.take(i as int)));
        }
        match &rows[i] {
            Ok(row) => {
                let ghost before = bytes@;
                bytes.extend_from_slice(row.as_slice());
                assert(bytes@ =~= before + row@);
            },
            Err(_) => {},
        }
        i += 1;
    }
    proof {
        assert(rows@.take(rows@.len() as int) =~= rows@);
    }
    bytes
}

} // verus!
