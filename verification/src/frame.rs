//! Frame extraction: a raw window read from the device yields a candidate
//! frame where it holds the frame delimiter, and nothing where it does not.

use vstd::prelude::*;
use vstd::slice::slice_subrange;
use vstd::utf8::{decode_utf8, encode_utf8, decode_utf8_encode_utf8, valid_utf8};
use crate::fields::{frame_fields, lemma_run_len_bounds, parse_frame, scan_until, FRAME_DELIMITER};

verus! {

/// Number of bytes in the window that one read of the device fills.
pub const WINDOW_LEN: usize = 12;

/// The text that lossy UTF-8 decoding makes of `bytes`: what
/// `String::from_utf8_lossy` returns for them, each invalid sequence replaced
/// by U+FFFD.
pub uninterp spec fn lossy_text(bytes: Seq<u8>) -> Seq<char>;

/// Decodes bytes as UTF-8 text, replacing what is invalid.
///
/// Trusted: calls `String::from_utf8_lossy`. The result is named, and for
/// valid UTF-8 it is the text that the bytes encode, as the documentation of
/// the function says.
#[verifier::external_body]
fn decode_lossy(bytes: &[u8]) -> (text: String)
    ensures
        text@ == lossy_text(bytes@),
        valid_utf8(bytes@) ==> text@ == decode_utf8(bytes@),
{
    String::from_utf8_lossy(bytes).into_owned()
}

/// Whether the window holds the frame delimiter anywhere, also beyond the
/// bytes of the last read.
pub fn has_delimiter(window: &[u8]) -> (found: bool)
    ensures
        found == window@.contains(FRAME_DELIMITER),
{
    let at = scan_until(window, FRAME_DELIMITER);
    proof {
        lemma_run_len_bounds(window@, FRAME_DELIMITER);
        if at < window@.len() {
            assert(window@[at as int] == FRAME_DELIMITER);
        }
    }
    at < window.len()
}

/// The candidate frame of a window of which the first `read` bytes were just
/// read: where the window holds the delimiter, the text of those bytes,
/// decoded lossily; nothing where it holds none.
pub fn extract_frame(window: &[u8], read: usize) -> (frame: Option<String>)
    requires
        read <= window@.len(),
    ensures
        frame is Some <==> window@.contains(FRAME_DELIMITER),
        frame matches Some(text) ==> text@ == lossy_text(window@.take(read as int)),
        frame matches Some(text) ==> valid_utf8(window@.take(read as int)) ==> encode_utf8(text@)
            == window@.take(read as int),
{
    if has_delimiter(window) {
        let text = decode_lossy(slice_subrange(window, 0, read));
        proof {
            if valid_utf8(window@.take(read as int)) {
                decode_utf8_encode_utf8(window@.take(read as int));
            }
        }
        Some(text)
    } else {
        None
    }
}

/// The reading that a window carries: the fields of its candidate frame.
pub open spec fn window_fields(window: Seq<u8>, read: int) -> Option<(i8, u8)> {
    if window.contains(FRAME_DELIMITER) {
        frame_fields(encode_utf8(lossy_text(window.take(read))))
    } else {
        None
    }
}

/// Reads a window of which the first `read` bytes were just read: extracts
/// its candidate frame and parses it. Nothing comes of a window without a
/// delimiter; of one whose bytes are valid UTF-8, the fields that these bytes
/// carry.
pub fn read_window(window: &[u8], read: usize) -> (fields: Option<(i8, u8)>)
    requires
        read <= window@.len(),
    ensures
        fields == window_fields(window@, read as int),
        !window@.contains(FRAME_DELIMITER) ==> fields is None,
        window@.contains(FRAME_DELIMITER) && valid_utf8(window@.take(read as int)) ==> fields
            == frame_fields(window@.take(read as int)),
{
    match extract_frame(window, read) {
        Some(text) => parse_frame(text.as_str()),
        None => None,
    }
}

} // verus!
