//! The ingestion cycle: the current reading and the batch buffer, and what one
//! window read from the device does to them.
//!
//! The caller owns the device and the store. Each cycle it refreshes the
//! capture time, reads a window, hands it to [`Ingestion::ingest`], appends
//! the batch that comes back, if one does, and shows the current reading.

use vstd::prelude::*;
use crate::batch::{after_push, flushed_by_push, BatchBuffer, BATCH_CAPACITY};
use crate::fields::FRAME_DELIMITER;
use crate::frame::{read_window, window_fields};
use crate::reading::{
    capture_text, capture_time, is_capture_text, stamped, text_of, views, Reading, ReadingView,
};

verus! {

/// The state of the ingestion: the reading on display and the readings
/// buffered for the next batch.
pub struct Ingestion {
    current: Reading,
    buffer: BatchBuffer,
}

/// What the state of the ingestion is to the contracts.
pub struct IngestionView {
    pub current: ReadingView,
    pub buffer: Seq<ReadingView>,
}

impl View for Ingestion {
    type V = IngestionView;

    closed spec fn view(&self) -> IngestionView {
        IngestionView { current: self.current@, buffer: self.buffer@ }
    }
}

/// The state after a window was read at the time `captured_at`. A window that
/// carries a reading replaces the current reading, numbers and time, and the
/// new reading is pushed onto the buffer. Any other window refreshes the time
/// alone: the numbers and the buffer stay as they are.
pub open spec fn after_window(
    state: IngestionView,
    window: Seq<u8>,
    read: int,
    captured_at: Seq<char>,
) -> IngestionView {
    match window_fields(window, read) {
        Some((temperature, humidity)) => {
            let reading = ReadingView { temperature, humidity, captured_at };
            IngestionView { current: reading, buffer: after_push(state.buffer, reading) }
        },
        None => IngestionView {
            current: ReadingView { captured_at, ..state.current },
            buffer: state.buffer,
        },
    }
}

/// The batch that a window flushes: the buffered readings, sorted and
/// deduplicated, where the window carries a reading and the buffer is full;
/// nothing otherwise.
pub open spec fn flushed_by_window(state: IngestionView, window: Seq<u8>, read: int) -> Option<
    Seq<ReadingView>,
> {
    match window_fields(window, read) {
        Some(_) => flushed_by_push(state.buffer),
        None => None,
    }
}

/// A window without a delimiter changes neither the numbers on display nor
/// the buffer, and flushes nothing.
pub proof fn lemma_window_without_delimiter(
    state: IngestionView,
    window: Seq<u8>,
    read: int,
    captured_at: Seq<char>,
)
    requires
        !window.contains(FRAME_DELIMITER),
    ensures
        after_window(state, window, read, captured_at).buffer == state.buffer,
        after_window(state, window, read, captured_at).current.temperature
            == state.current.temperature,
        after_window(state, window, read, captured_at).current.humidity == state.current.humidity,
        flushed_by_window(state, window, read) is None,
{
}

/// A window that carries no reading, whether it lacks the delimiter or its
/// frame is rejected, changes neither number on display: both stay, never one
/// alone. The buffer stays too and nothing is flushed.
pub proof fn lemma_rejected_window(
    state: IngestionView,
    window: Seq<u8>,
    read: int,
    captured_at: Seq<char>,
)
    requires
        window_fields(window, read) is None,
    ensures
        after_window(state, window, read, captured_at) == (IngestionView {
            current: ReadingView { captured_at, ..state.current },
            buffer: state.buffer,
        }),
        flushed_by_window(state, window, read) is None,
{
}

/// Whatever the window, the buffer holds no more than a full batch after it,
/// and a batch is flushed only from a full buffer.
pub proof fn lemma_window_within_capacity(
    state: IngestionView,
    window: Seq<u8>,
    read: int,
    captured_at: Seq<char>,
)
    requires
        state.buffer.len() <= BATCH_CAPACITY,
    ensures
        after_window(state, window, read, captured_at).buffer.len() <= BATCH_CAPACITY,
        flushed_by_window(state, window, read) is Some ==> state.buffer.len() == BATCH_CAPACITY,
{
}

impl Ingestion {
    /// The state at start: a reading of zero degrees and zero percent,
    /// captured at `captured_at`, and an empty buffer.
    pub fn new(captured_at: String) -> (state: Ingestion)
        ensures
            state@ == (IngestionView {
                current: ReadingView { temperature: 0, humidity: 0, captured_at: captured_at@ },
                buffer: Seq::empty(),
            }),
    {
        Ingestion { current: Reading::new(0, 0, captured_at), buffer: BatchBuffer::new() }
    }

    /// The state at start, with the present moment as the capture time of the
    /// reading on display. Whatever instant the clock gives, the reading on
    /// display is zero degrees and zero percent with the capture time of that
    /// instant, or with an empty one where the instant has none; the buffer is
    /// empty.
    pub fn start() -> (state: Ingestion)
        ensures
            exists|seconds: i64|
                state@ == (IngestionView {
                    current: ReadingView {
                        temperature: 0,
                        humidity: 0,
                        captured_at: #[trigger] stamped(Seq::empty(), seconds),
                    },
                    buffer: Seq::empty(),
                }),
            is_capture_text(state@.current.captured_at) || state@.current.captured_at
                == Seq::<char>::empty(),
    {
        let text = capture_time();
        let ghost seconds = choose|seconds: i64| capture_text(seconds) == text_of(text);
        let state = match text {
            Some(text) => Ingestion::new(text),
            None => Ingestion::new(String::new()),
        };
        assert(state@.current.captured_at == stamped(Seq::empty(), seconds));
        state
    }

    /// The reading on display.
    pub fn current(&self) -> (reading: &Reading)
        ensures
            reading@ == self@.current,
    {
        &self.current
    }

    /// Number of readings buffered for the next batch: never more than the
    /// capacity.
    pub fn occupancy(&self) -> (n: usize)
        ensures
            n == self@.buffer.len(),
            n <= BATCH_CAPACITY,
    {
        self.buffer.len()
    }

    /// Sets the capture time of the reading on display; its numbers and the
    /// buffer stay as they are.
    pub fn set_time(&mut self, captured_at: String)
        ensures
            final(self)@ == (IngestionView {
                current: ReadingView { captured_at: captured_at@, ..old(self)@.current },
                buffer: old(self)@.buffer,
            }),
    {
        self.current.set_time(captured_at);
    }

    /// Sets the capture time of the reading on display to the present moment
    /// and says whether that moment has a capture time. Whatever instant the
    /// clock gives, the time on display becomes the capture time of the
    /// instant and the answer is yes, or the state is unchanged and the
    /// answer is no, where the instant has none. The numbers on display and
    /// the buffer stay as they are.
    pub fn refresh(&mut self) -> (refreshed: bool)
        ensures
            exists|seconds: i64|
                refreshed == (#[trigger] capture_text(seconds) is Some) && final(self)@
                    == (IngestionView {
                    current: ReadingView {
                        captured_at: stamped(old(self)@.current.captured_at, seconds),
                        ..old(self)@.current
                    },
                    buffer: old(self)@.buffer,
                }),
            refreshed ==> is_capture_text(final(self)@.current.captured_at),
            !refreshed ==> final(self)@ == old(self)@,
    {
        self.current.update_time()
    }

    /// Takes in a window of which the first `read` bytes were just read, at
    /// the time `captured_at`, and hands back the batch to store if the window
    /// flushed one.
    pub fn accept(&mut self, window: &[u8], read: usize, captured_at: String) -> (flushed: Option<
        Vec<Reading>,
    >)
        requires
            read <= window@.len(),
        ensures
            final(self)@ == after_window(old(self)@, window@, read as int, captured_at@),
            match flushed {
                Some(batch) => flushed_by_window(old(self)@, window@, read as int) == Some(
                    views(batch@),
                ),
                None => flushed_by_window(old(self)@, window@, read as int) is None,
            },
    {
        match read_window(window, read) {
            Some((temperature, humidity)) => {
                self.current.record(temperature, humidity, captured_at);
                self.buffer.push(self.current.clone())
            },
            None => {
                self.current.set_time(captured_at);
                None
            },
        }
    }

    /// Takes in a window of which the first `read` bytes were just read, at
    /// the present moment, and hands back the batch to store if the window
    /// flushed one. The state moves as [`Ingestion::accept`] moves it for the
    /// capture time that ends up on display: the capture time of some
    /// instant, or the one that was on display where the clock gave none.
    pub fn ingest(&mut self, window: &[u8], read: usize) -> (flushed: Option<Vec<Reading>>)
        requires
            read <= window@.len(),
        ensures
            final(self)@ == after_window(
                old(self)@,
                window@,
                read as int,
                final(self)@.current.captured_at,
            ),
            is_capture_text(final(self)@.current.captured_at)
                || final(self)@.current.captured_at == old(self)@.current.captured_at,
            match flushed {
                Some(batch) => flushed_by_window(old(self)@, window@, read as int) == Some(
                    views(batch@),
                ),
                None => flushed_by_window(old(self)@, window@, read as int) is None,
            },
    {
        let captured_at = match capture_time() {
            Some(text) => text,
            None => self.current.captured_at.clone(),
        };
        self.accept(window, read, captured_at)
    }
}

} // verus!
