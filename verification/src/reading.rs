//! The reading: one validated sensor sample with its capture time, the total
//! order that batches are sorted by, and the tie that deduplication merges on.

use std::fmt::Write;
use vstd::prelude::*;
use vstd::relations::total_ordering;
use vstd::utf8::{encode_utf8, encode_utf8_decode_utf8};

verus! {

/// Offset of the capture times from UTC, in seconds: two hours east.
pub const UTC_OFFSET_SECONDS: i32 = 7200;

/// Layout of a capture time: day, month and year, then hours, minutes and
/// seconds.
pub const TIMESTAMP_LAYOUT: &'static str = "%d-%m-%Y %H:%M:%S";

/// One sensor sample.
#[derive(Debug)]
pub struct Reading {
    /// Degrees Celsius.
    pub temperature: i8,
    /// Relative humidity in percent.
    pub humidity: u8,
    /// When the sample was validated, as text.
    pub captured_at: String,
}

/// What a reading is to the contracts: its two numbers and the characters of
/// its capture time.
pub struct ReadingView {
    pub temperature: i8,
    pub humidity: u8,
    pub captured_at: Seq<char>,
}

impl View for Reading {
    type V = ReadingView;

    open spec fn view(&self) -> ReadingView {
        ReadingView {
            temperature: self.temperature,
            humidity: self.humidity,
            captured_at: self.captured_at@,
        }
    }
}

/// The views of a sequence of readings, in order.
pub open spec fn views(readings: Seq<Reading>) -> Seq<ReadingView> {
    readings.map_values(|r: Reading| r@)
}

/// Lexicographic order on byte strings: `a` comes at or before `b`.
pub open spec fn bytes_le(a: Seq<u8>, b: Seq<u8>) -> bool
    decreases a.len(),
{
    if a.len() == 0 {
        true
    } else if b.len() == 0 {
        false
    } else if a[0] != b[0] {
        a[0] < b[0]
    } else {
        bytes_le(a.drop_first(), b.drop_first())
    }
}

/// The order of readings: by temperature, then by humidity, then by the bytes
/// of the capture time. `a` comes at or before `b`.
pub open spec fn reading_le(a: ReadingView, b: ReadingView) -> bool {
    if a.temperature != b.temperature {
        a.temperature < b.temperature
    } else if a.humidity != b.humidity {
        a.humidity < b.humidity
    } else {
        bytes_le(encode_utf8(a.captured_at), encode_utf8(b.captured_at))
    }
}

/// The order of readings as a relation.
pub open spec fn reading_order() -> spec_fn(ReadingView, ReadingView) -> bool {
    |a: ReadingView, b: ReadingView| reading_le(a, b)
}

/// Two readings tie where their temperatures are equal or their humidities
/// are: one shared number is enough.
pub open spec fn ties(a: ReadingView, b: ReadingView) -> bool {
    a.temperature == b.temperature || a.humidity == b.humidity
}

/// The byte order is reflexive.
pub proof fn lemma_bytes_le_reflexive(a: Seq<u8>)
    ensures
        bytes_le(a, a),
    decreases a.len(),
{
    if a.len() > 0 {
        lemma_bytes_le_reflexive(a.drop_first());
    }
}

/// Of two byte strings one comes at or before the other.
pub proof fn lemma_bytes_le_connected(a: Seq<u8>, b: Seq<u8>)
    ensures
        bytes_le(a, b) || bytes_le(b, a),
    decreases a.len(),
{
    if a.len() > 0 && b.len() > 0 && a[0] == b[0] {
        lemma_bytes_le_connected(a.drop_first(), b.drop_first());
    }
}

/// Two byte strings that come at or before each other are equal.
pub proof fn lemma_bytes_le_antisymmetric(a: Seq<u8>, b: Seq<u8>)
    requires
        bytes_le(a, b),
        bytes_le(b, a),
    ensures
        a == b,
    decreases a.len(),
{
    if a.len() > 0 {
        lemma_bytes_le_antisymmetric(a.drop_first(), b.drop_first());
        assert(a =~= seq![a[0]] + a.drop_first());
        assert(b =~= seq![b[0]] + b.drop_first());
    } else {
        assert(a =~= b);
    }
}

/// The byte order is transitive.
pub proof fn lemma_bytes_le_transitive(a: Seq<u8>, b: Seq<u8>, c: Seq<u8>)
    requires
        bytes_le(a, b),
        bytes_le(b, c),
    ensures
        bytes_le(a, c),
    decreases a.len(),
{
    if a.len() > 0 && a[0] == b[0] && b[0] == c[0] {
        lemma_bytes_le_transitive(a.drop_first(), b.drop_first(), c.drop_first());
    }
}

/// Of two readings one comes at or before the other.
pub proof fn lemma_reading_le_connected(a: ReadingView, b: ReadingView)
    ensures
        reading_le(a, b) || reading_le(b, a),
{
    lemma_bytes_le_connected(encode_utf8(a.captured_at), encode_utf8(b.captured_at));
}

/// Two readings that come at or before each other are the same reading.
pub proof fn lemma_reading_le_antisymmetric(a: ReadingView, b: ReadingView)
    requires
        reading_le(a, b),
        reading_le(b, a),
    ensures
        a == b,
{
    lemma_bytes_le_antisymmetric(encode_utf8(a.captured_at), encode_utf8(b.captured_at));
    encode_utf8_decode_utf8(a.captured_at);
    encode_utf8_decode_utf8(b.captured_at);
}

/// The order of readings is transitive.
pub proof fn lemma_reading_le_transitive(a: ReadingView, b: ReadingView, c: ReadingView)
    requires
        reading_le(a, b),
        reading_le(b, c),
    ensures
        reading_le(a, c),
{
    if a.temperature == b.temperature && b.temperature == c.temperature && a.humidity
        == b.humidity && b.humidity == c.humidity {
        lemma_bytes_le_transitive(
            encode_utf8(a.captured_at),
            encode_utf8(b.captured_at),
            encode_utf8(c.captured_at),
        );
    }
}

/// The order of readings is total: reflexive, antisymmetric, transitive, and
/// any two readings are comparable.
pub proof fn lemma_reading_order_total()
    ensures
        total_ordering(reading_order()),
{
    let leq = reading_order();
    assert forall|x: ReadingView| #[trigger] leq(x, x) by {
        lemma_bytes_le_reflexive(encode_utf8(x.captured_at));
    }
    assert forall|x: ReadingView, y: ReadingView| #[trigger] leq(x, y) && #[trigger] leq(
        y,
        x,
    ) implies x == y by {
        lemma_reading_le_antisymmetric(x, y);
    }
    assert forall|x: ReadingView, y: ReadingView, z: ReadingView| #[trigger] leq(x, y)
        && #[trigger] leq(y, z) implies leq(x, z) by {
        lemma_reading_le_transitive(x, y, z);
    }
    assert forall|x: ReadingView, y: ReadingView| #[trigger] leq(x, y) || #[trigger] leq(y, x) by {
        lemma_reading_le_connected(x, y);
    }
}

/// Whether `a` comes at or before `b` in the lexicographic order of bytes.
pub fn bytes_at_most(a: &[u8], b: &[u8]) -> (r: bool)
    ensures
        r == bytes_le(a@, b@),
{
    let mut i: usize = 0;
    proof {
        assert(a@.skip(0) =~= a@);
        assert(b@.skip(0) =~= b@);
    }
    while i < a.len() && i < b.len() && a[i] == b[i]
        invariant
            i <= a@.len(),
            i <= b@.len(),
            bytes_le(a@, b@) == bytes_le(a@.skip(i as int), b@.skip(i as int)),
        decreases a@.len() - i,
    {
        proof {
            assert(a@.skip(i as int).drop_first() =~= a@.skip(i + 1));
            assert(b@.skip(i as int).drop_first() =~= b@.skip(i + 1));
        }
        i += 1;
    }
    if i >= a.len() {
        true
    } else if i >= b.len() {
        false
    } else {
        a[i] < b[i]
    }
}

/// The text of the instant `seconds` after the Unix epoch, seen from the zone
/// `offset_seconds` east of UTC and written in the `strftime` layout `layout`,
/// as chrono renders it. `None` where chrono has no such instant or zone, or
/// refuses the layout.
pub uninterp spec fn instant_text(seconds: i64, offset_seconds: i32, layout: Seq<char>) -> Option<
    Seq<char>,
>;

/// Renders an instant as text.
///
/// Trusted: calls `chrono::FixedOffset::east_opt`,
/// `chrono::DateTime::from_timestamp`, `DateTime::with_timezone` and
/// `DateTime::format`, and writes the result into a string. The text is a
/// function of the three arguments and is named; it is `None` where chrono
/// returns no zone or no instant or fails to format.
#[verifier::external_body]
fn format_instant(seconds: i64, offset_seconds: i32, layout: &str) -> (text: Option<String>)
    ensures
        match text {
            Some(t) => instant_text(seconds, offset_seconds, layout@) == Some(t@),
            None => instant_text(seconds, offset_seconds, layout@) is None,
        },
{
    let zone = chrono::FixedOffset::east_opt(offset_seconds)?;
    let instant = chrono::DateTime::from_timestamp(seconds, 0)?.with_timezone(&zone);
    let mut text = String::new();
    write!(text, "{}", instant.format(layout)).ok()?;
    Some(text)
}

/// The present moment, in seconds after the Unix epoch.
///
/// Trusted: calls `chrono::Utc::now` and `DateTime::timestamp`. Nothing is
/// claimed of the number, which the clock decides.
#[verifier::external_body]
fn clock_seconds() -> (seconds: i64) {
    chrono::Utc::now().timestamp()
}

/// The capture time of the instant `seconds` after the Unix epoch: two hours
/// east of UTC, as day, month and year, then hours, minutes and seconds.
pub open spec fn capture_text(seconds: i64) -> Option<Seq<char>> {
    instant_text(seconds, UTC_OFFSET_SECONDS, TIMESTAMP_LAYOUT@)
}

/// Whether `text` is the capture time of some instant.
pub open spec fn is_capture_text(text: Seq<char>) -> bool {
    exists|seconds: i64| #[trigger] capture_text(seconds) == Some(text)
}

/// The capture time of the instant `seconds` after the Unix epoch.
pub fn capture_time_at(seconds: i64) -> (text: Option<String>)
    ensures
        match text {
            Some(t) => capture_text(seconds) == Some(t@),
            None => capture_text(seconds) is None,
        },
{
    format_instant(seconds, UTC_OFFSET_SECONDS, TIMESTAMP_LAYOUT)
}

/// The characters of a text that may be missing.
pub open spec fn text_of(text: Option<String>) -> Option<Seq<char>> {
    match text {
        Some(t) => Some(t@),
        None => None,
    }
}

/// The capture time that a refresh at the instant `seconds` leaves where
/// `before` stood: the capture time of that instant, or `before` where the
/// instant has none.
pub open spec fn stamped(before: Seq<char>, seconds: i64) -> Seq<char> {
    match capture_text(seconds) {
        Some(text) => text,
        None => before,
    }
}

/// The capture time of the present moment. Whatever instant the clock gives,
/// the result is what [`capture_time_at`] makes of that instant: its capture
/// time, or `None` where it has none.
pub fn capture_time() -> (text: Option<String>)
    ensures
        exists|seconds: i64| #[trigger] capture_text(seconds) == text_of(text),
        text matches Some(t) ==> is_capture_text(t@),
{
    let seconds = clock_seconds();
    let text = capture_time_at(seconds);
    assert(capture_text(seconds) == text_of(text));
    text
}

impl Reading {
    /// A reading of the given numbers, captured at `captured_at`.
    pub fn new(temperature: i8, humidity: u8, captured_at: String) -> (r: Reading)
        ensures
            r.temperature == temperature,
            r.humidity == humidity,
            r.captured_at == captured_at,
    {
        Reading { temperature, humidity, captured_at }
    }

    /// Whether this reading comes at or before `other` in the order of
    /// readings.
    pub fn at_most(&self, other: &Reading) -> (r: bool)
        ensures
            r == reading_le(self@, other@),
    {
        if self.temperature != other.temperature {
            self.temperature < other.temperature
        } else if self.humidity != other.humidity {
            self.humidity < other.humidity
        } else {
            bytes_at_most(self.captured_at.as_str().as_bytes(), other.captured_at.as_str().as_bytes())
        }
    }

    /// Whether this reading ties with `other`: same temperature or same
    /// humidity.
    pub fn ties_with(&self, other: &Reading) -> (r: bool)
        ensures
            r == ties(self@, other@),
    {
        self.temperature == other.temperature || self.humidity == other.humidity
    }

    /// Replaces the capture time and leaves the two numbers as they are.
    pub fn set_time(&mut self, captured_at: String)
        ensures
            final(self).temperature == old(self).temperature,
            final(self).humidity == old(self).humidity,
            final(self).captured_at == captured_at,
    {
        self.captured_at = captured_at;
    }

    /// Replaces both numbers and the capture time at once.
    pub fn record(&mut self, temperature: i8, humidity: u8, captured_at: String)
        ensures
            final(self).temperature == temperature,
            final(self).humidity == humidity,
            final(self).captured_at == captured_at,
    {
        self.temperature = temperature;
        self.humidity = humidity;
        self.captured_at = captured_at;
    }

    /// Sets the capture time to the present moment and says whether that
    /// moment has a capture time. The two numbers stay as they are. Whatever
    /// instant the clock gives, the capture time becomes that of the instant
    /// and the answer is yes, or the reading is unchanged and the answer is
    /// no, where the instant has none.
    pub fn update_time(&mut self) -> (refreshed: bool)
        ensures
            final(self).temperature == old(self).temperature,
            final(self).humidity == old(self).humidity,
            exists|seconds: i64|
                refreshed == (#[trigger] capture_text(seconds) is Some) && final(self).captured_at@
                    == stamped(old(self).captured_at@, seconds),
            refreshed ==> is_capture_text(final(self).captured_at@),
            !refreshed ==> final(self).captured_at == old(self).captured_at,
    {
        let text = capture_time();
        let ghost seconds = choose|seconds: i64| capture_text(seconds) == text_of(text);
        match text {
            Some(text) => {
                self.set_time(text);
                assert(capture_text(seconds) is Some);
                true
            },
            None => {
                assert(capture_text(seconds) is None);
                false
            },
        }
    }
}

impl Clone for Reading {
    fn clone(&self) -> (r: Reading)
        ensures
            r == *self,
    {
        Reading {
            temperature: self.temperature,
            humidity: self.humidity,
            captured_at: self.captured_at.clone(),
        }
    }
}

impl PartialEq for Reading {
    fn eq(&self, other: &Reading) -> (r: bool) {
        self.temperature == other.temperature && self.humidity == other.humidity
            && self.captured_at == other.captured_at
    }
}

impl vstd::std_specs::cmp::PartialEqSpecImpl for Reading {
    open spec fn obeys_eq_spec() -> bool {
        true
    }

    open spec fn eq_spec(&self, other: &Reading) -> bool {
        self@ == other@
    }
}

impl Eq for Reading {

}

} // verus!
