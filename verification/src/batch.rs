//! The batch buffer: readings accumulate up to a fixed capacity; a full batch
//! is sorted, deduplicated on ties and handed out before the next reading is
//! stored.

use vstd::prelude::*;
use vstd::relations::sorted_by;
use vstd::seq_lib::{lemma_sorted_unique, to_multiset_build, to_multiset_insert};
use crate::reading::{
    lemma_reading_le_connected, lemma_reading_le_transitive, lemma_reading_order_total,
    reading_le, reading_order, ties, views, Reading, ReadingView,
};

verus! {

/// Number of readings that a batch holds before it is flushed.
pub const BATCH_CAPACITY: usize = 10;

/// A sequence of readings without the ones that tie with the reading kept just
/// before them. The scan runs from the front: each reading is compared with
/// the last one that was kept, not with its neighbour in the input.
pub open spec fn dedup(s: Seq<ReadingView>) -> Seq<ReadingView>
    decreases s.len(),
{
    if s.len() == 0 {
        s
    } else {
        let kept = dedup(s.drop_last());
        if kept.len() > 0 && ties(s.last(), kept.last()) {
            kept
        } else {
            kept.push(s.last())
        }
    }
}

/// What a flush hands out of the buffered readings `s`: the readings in
/// order, then deduplicated on ties.
pub open spec fn flushed_batch(s: Seq<ReadingView>) -> Seq<ReadingView> {
    dedup(s.sort_by(reading_order()))
}

/// The buffer after a reading is pushed onto the buffered readings `s`: one
/// longer while there is room, and the new reading alone once `s` is full.
pub open spec fn after_push(s: Seq<ReadingView>, reading: ReadingView) -> Seq<ReadingView> {
    if s.len() < BATCH_CAPACITY {
        s.push(reading)
    } else {
        seq![reading]
    }
}

/// What a push onto the buffered readings `s` flushes: nothing while there is
/// room, the whole batch once `s` is full.
pub open spec fn flushed_by_push(s: Seq<ReadingView>) -> Option<Seq<ReadingView>> {
    if s.len() < BATCH_CAPACITY {
        None
    } else {
        Some(flushed_batch(s))
    }
}

/// Sorts readings by temperature, then humidity, then capture time.
pub fn sort_readings(readings: Vec<Reading>) -> (sorted: Vec<Reading>)
    ensures
        views(sorted@) == views(readings@).sort_by(reading_order()),
{
    let ghost all = readings@;
    let mut sorted: Vec<Reading> = Vec::new();
    assert(views(all.take(0)) =~= views(sorted@));
    for reading in it: readings
        invariant
            it.seq() == all,
            sorted_by(views(sorted@), reading_order()),
            views(sorted@).to_multiset() == views(all.take(it.index() as int)).to_multiset(),
    {
        let mut at: usize = 0;
        while at < sorted.len() && sorted[at].at_most(&reading)
            invariant
                at <= sorted@.len(),
                forall|k: int| 0 <= k < at ==> reading_le(#[trigger] sorted@[k]@, reading@),
            decreases sorted@.len() - at,
        {
            at += 1;
        }
        proof {
            let before = views(sorted@);
            let after = before.insert(at as int, reading@);
            assert forall|k: int| at <= k < before.len() implies reading_le(
                reading@,
                #[trigger] before[k],
            ) by {
                lemma_reading_le_connected(sorted@[at as int]@, reading@);
                if k > at {
                    assert(reading_order()(before[at as int], before[k]));
                    lemma_reading_le_transitive(reading@, before[at as int], before[k]);
                }
            }
            assert forall|i: int, j: int| 0 <= i < j < after.len() implies reading_order()(
                after[i],
                after[j],
            ) by {
                if j < at {
                    assert(reading_order()(before[i], before[j]));
                } else if j == at {
                    assert(reading_le(sorted@[i]@, reading@));
                } else if i < at {
                    assert(reading_order()(before[i], before[j - 1]));
                } else if i == at {
                    assert(reading_le(reading@, before[j - 1]));
                } else {
                    assert(reading_order()(before[i - 1], before[j - 1]));
                }
            }
            to_multiset_insert(before, at as int, reading@);
            let done = views(all.take(it.index() as int));
            to_multiset_build(done, reading@);
            assert(views(all.take(it.index() + 1)) =~= done.push(reading@));
            assert(views(sorted@.insert(at as int, reading)) =~= after);
        }
        sorted.insert(at, reading);
    }
    proof {
        assert(all.take(all.len() as int) =~= all);
        lemma_reading_order_total();
        views(all).lemma_sort_by_ensures(reading_order());
        lemma_sorted_unique(views(sorted@), views(all).sort_by(reading_order()), reading_order());
    }
    sorted
}

/// Drops every reading that ties with the reading kept just before it.
pub fn dedup_readings(readings: Vec<Reading>) -> (kept: Vec<Reading>)
    ensures
        views(kept@) == dedup(views(readings@)),
{
    let ghost all = readings@;
    let mut kept: Vec<Reading> = Vec::new();
    for reading in it: readings
        invariant
            it.seq() == all,
            views(kept@) == dedup(views(all.take(it.index() as int))),
    {
        proof {
            let upto = views(all.take(it.index() + 1));
            assert(upto.drop_last() =~= views(all.take(it.index() as int)));
            assert(upto.last() == reading@);
            assert(views(kept@.push(reading)) =~= views(kept@).push(reading@));
        }
        let n: usize = kept.len();
        if n == 0 || !reading.ties_with(&kept[n - 1]) {
            kept.push(reading);
        }
    }
    proof {
        assert(all.take(all.len() as int) =~= all);
    }
    kept
}

/// A bounded buffer of readings.
pub struct BatchBuffer {
    readings: Vec<Reading>,
}

impl View for BatchBuffer {
    type V = Seq<ReadingView>;

    closed spec fn view(&self) -> Seq<ReadingView> {
        views(self.readings@)
    }
}

impl BatchBuffer {
    #[verifier::type_invariant]
    spec fn within_capacity(self) -> bool {
        self.readings@.len() <= BATCH_CAPACITY
    }

    /// An empty buffer.
    pub fn new() -> (buffer: BatchBuffer)
        ensures
            buffer@ == Seq::<ReadingView>::empty(),
    {
        let buffer = BatchBuffer { readings: Vec::new() };
        assert(buffer@ =~= Seq::<ReadingView>::empty());
        buffer
    }

    /// Number of buffered readings: never more than the capacity.
    pub fn len(&self) -> (n: usize)
        ensures
            n == self@.len(),
            n <= BATCH_CAPACITY,
    {
        proof {
            use_type_invariant(self);
        }
        self.readings.len()
    }

    /// Whether the buffer holds a full batch, so that the next push flushes.
    pub fn is_full(&self) -> (full: bool)
        ensures
            full == (self@.len() == BATCH_CAPACITY),
    {
        self.len() >= BATCH_CAPACITY
    }

    /// The buffered readings, oldest first.
    pub fn readings(&self) -> (readings: &Vec<Reading>)
        ensures
            views(readings@) == self@,
    {
        &self.readings
    }

    /// Empties the buffer.
    pub fn clear(&mut self)
        ensures
            final(self)@ == Seq::<ReadingView>::empty(),
    {
        self.readings = Vec::new();
        assert(self@ =~= Seq::<ReadingView>::empty());
    }

    /// Takes the buffered readings out as a batch, sorted and deduplicated,
    /// and leaves the buffer empty.
    pub fn flush(&mut self) -> (batch: Vec<Reading>)
        ensures
            views(batch@) == flushed_batch(old(self)@),
            final(self)@ == Seq::<ReadingView>::empty(),
    {
        let mut taken: Vec<Reading> = Vec::new();
        std::mem::swap(&mut self.readings, &mut taken);
        assert(self@ =~= Seq::<ReadingView>::empty());
        dedup_readings(sort_readings(taken))
    }

    /// Appends a reading to a buffer that has room for it.
    fn append(&mut self, reading: Reading)
        requires
            old(self)@.len() < BATCH_CAPACITY,
        ensures
            final(self)@ == old(self)@.push(reading@),
    {
        let mut held: Vec<Reading> = Vec::new();
        std::mem::swap(&mut self.readings, &mut held);
        assert(views(held@.push(reading)) =~= views(held@).push(reading@));
        held.push(reading);
        self.readings = held;
    }

    /// Stores a reading. While there is room the reading is appended and
    /// nothing is flushed. Once the buffer is full, the batch is flushed first
    /// and the reading starts the next batch.
    pub fn push(&mut self, reading: Reading) -> (flushed: Option<Vec<Reading>>)
        ensures
            final(self)@ == after_push(old(self)@, reading@),
            match flushed {
                Some(batch) => flushed_by_push(old(self)@) == Some(views(batch@)),
                None => flushed_by_push(old(self)@) is None,
            },
    {
        let flushed = if self.len() < BATCH_CAPACITY {
            None
        } else {
            Some(self.flush())
        };
        assert(Seq::<ReadingView>::empty().push(reading@) =~= seq![reading@]);
        self.append(reading);
        flushed
    }
}

} // verus!
