//! What holds of the batch buffer over any run of pushes, and of the
//! deduplication of any batch.

use vstd::prelude::*;
use vstd::relations::sorted_by;
use vstd::seq_lib::group_to_multiset_ensures;
use crate::batch::{after_push, dedup, flushed_batch, flushed_by_push, BATCH_CAPACITY};
use crate::reading::{lemma_reading_order_total, reading_order, ties, ReadingView};

verus! {

/// The buffer after each of `readings` is pushed in turn onto the buffered
/// readings `start`.
pub open spec fn after_pushes(start: Seq<ReadingView>, readings: Seq<ReadingView>) -> Seq<
    ReadingView,
>
    decreases readings.len(),
{
    if readings.len() == 0 {
        start
    } else {
        after_push(after_pushes(start, readings.drop_last()), readings.last())
    }
}

/// The batches that are flushed, in order, while each of `readings` is pushed
/// in turn onto the buffered readings `start`.
pub open spec fn flushes_of_pushes(start: Seq<ReadingView>, readings: Seq<ReadingView>) -> Seq<
    Seq<ReadingView>,
>
    decreases readings.len(),
{
    if readings.len() == 0 {
        Seq::empty()
    } else {
        let earlier = flushes_of_pushes(start, readings.drop_last());
        match flushed_by_push(after_pushes(start, readings.drop_last())) {
            Some(batch) => earlier.push(batch),
            None => earlier,
        }
    }
}

/// Whether no two readings of `s` tie.
pub open spec fn untied(s: Seq<ReadingView>) -> bool {
    forall|i: int, j: int| 0 <= i < j < s.len() ==> !ties(#[trigger] s[i], #[trigger] s[j])
}

/// A push never leaves more than a full batch in the buffer, and never leaves
/// it empty.
pub proof fn lemma_push_within_capacity(s: Seq<ReadingView>, reading: ReadingView)
    requires
        s.len() <= BATCH_CAPACITY,
    ensures
        0 < after_push(s, reading).len() <= BATCH_CAPACITY,
        flushed_by_push(s) is Some <==> s.len() == BATCH_CAPACITY,
{
}

/// However many readings are pushed, the buffer never holds more than a full
/// batch.
pub proof fn lemma_pushes_within_capacity(start: Seq<ReadingView>, readings: Seq<ReadingView>)
    requires
        start.len() <= BATCH_CAPACITY,
    ensures
        after_pushes(start, readings).len() <= BATCH_CAPACITY,
    decreases readings.len(),
{
    if readings.len() > 0 {
        lemma_pushes_within_capacity(start, readings.drop_last());
    }
}

/// Up to a full batch of readings pushed onto an empty buffer is stored as it
/// comes, and nothing is flushed.
pub proof fn lemma_first_batch_accumulates(readings: Seq<ReadingView>)
    requires
        readings.len() <= BATCH_CAPACITY,
    ensures
        after_pushes(Seq::empty(), readings) == readings,
        flushes_of_pushes(Seq::empty(), readings) == Seq::<Seq<ReadingView>>::empty(),
    decreases readings.len(),
{
    if readings.len() > 0 {
        lemma_first_batch_accumulates(readings.drop_last());
        assert(readings.drop_last().push(readings.last()) =~= readings);
    } else {
        assert(after_pushes(Seq::empty(), readings) =~= readings);
    }
}

/// The push that follows a full batch flushes exactly once: the batch of the
/// readings before it, sorted and deduplicated. The buffer then holds the new
/// reading alone.
pub proof fn lemma_push_after_full_batch_flushes_once(readings: Seq<ReadingView>)
    requires
        readings.len() == BATCH_CAPACITY + 1,
    ensures
        flushes_of_pushes(Seq::empty(), readings) == seq![flushed_batch(readings.drop_last())],
        after_pushes(Seq::empty(), readings) == seq![readings.last()],
{
    lemma_first_batch_accumulates(readings.drop_last());
    assert(Seq::<Seq<ReadingView>>::empty().push(flushed_batch(readings.drop_last()))
        =~= seq![flushed_batch(readings.drop_last())]);
}

/// Deduplication drops readings and adds none.
pub proof fn lemma_dedup_no_longer(s: Seq<ReadingView>)
    ensures
        dedup(s).len() <= s.len(),
        s.len() > 0 ==> dedup(s).len() > 0,
    decreases s.len(),
{
    if s.len() > 0 {
        lemma_dedup_no_longer(s.drop_last());
    }
}

/// The first reading always survives deduplication.
pub proof fn lemma_dedup_keeps_first(s: Seq<ReadingView>)
    requires
        s.len() > 0,
    ensures
        dedup(s).len() > 0,
        dedup(s)[0] == s[0],
    decreases s.len(),
{
    if s.len() > 1 {
        lemma_dedup_keeps_first(s.drop_last());
    } else {
        assert(dedup(s.drop_last()).len() == 0);
    }
}

/// After deduplication no reading ties with the one before it.
pub proof fn lemma_dedup_leaves_no_adjacent_tie(s: Seq<ReadingView>, i: int)
    requires
        0 < i < dedup(s).len(),
    ensures
        !ties(dedup(s)[i], dedup(s)[i - 1]),
    decreases s.len(),
{
    if s.len() > 0 {
        let kept = dedup(s.drop_last());
        if i < kept.len() {
            lemma_dedup_leaves_no_adjacent_tie(s.drop_last(), i);
        }
    }
}

/// Every reading that survives deduplication is one of the readings that
/// went in.
pub proof fn lemma_dedup_keeps_only_inputs(s: Seq<ReadingView>, i: int)
    requires
        0 <= i < dedup(s).len(),
    ensures
        s.contains(dedup(s)[i]),
    decreases s.len(),
{
    if s.len() > 0 {
        let kept = dedup(s.drop_last());
        if i < kept.len() {
            lemma_dedup_keeps_only_inputs(s.drop_last(), i);
            let k = choose|k: int| 0 <= k < s.drop_last().len() && s.drop_last()[k] == kept[i];
            assert(s[k] == kept[i]);
        } else {
            assert(s[s.len() - 1] == dedup(s)[i]);
        }
    }
}

/// Readings of which no two tie all survive deduplication.
pub proof fn lemma_dedup_of_untied(s: Seq<ReadingView>)
    requires
        untied(s),
    ensures
        dedup(s) == s,
    decreases s.len(),
{
    if s.len() > 0 {
        let front = s.drop_last();
        assert(untied(front)) by {
            assert forall|i: int, j: int| 0 <= i < j < front.len() implies !ties(
                #[trigger] front[i],
                #[trigger] front[j],
            ) by {
                assert(!ties(s[i], s[j]));
            }
        }
        lemma_dedup_of_untied(front);
        if front.len() > 0 {
            assert(!ties(s[front.len() - 1], s[s.len() - 1]));
        }
        assert(front.push(s.last()) =~= s);
    } else {
        assert(dedup(s) =~= s);
    }
}

/// Putting readings of which no two tie in order leaves them untied.
pub proof fn lemma_sorting_keeps_untied(s: Seq<ReadingView>)
    requires
        untied(s),
    ensures
        untied(s.sort_by(reading_order())),
{
    broadcast use group_to_multiset_ensures;

    let t = s.sort_by(reading_order());
    lemma_reading_order_total();
    s.lemma_sort_by_ensures(reading_order());
    assert(s.no_duplicates()) by {
        assert forall|i: int, j: int| 0 <= i < s.len() && 0 <= j < s.len() && i != j implies s[i]
            != s[j] by {
            if i < j {
                assert(!ties(s[i], s[j]));
            } else {
                assert(!ties(s[j], s[i]));
            }
        }
    }
    s.lemma_multiset_has_no_duplicates();
    t.lemma_multiset_has_no_duplicates_conv();
    assert forall|i: int, j: int| 0 <= i < j < t.len() implies !ties(
        #[trigger] t[i],
        #[trigger] t[j],
    ) by {
        assert(t.contains(t[i]));
        assert(t.contains(t[j]));
        assert(s.contains(t[i]));
        assert(s.contains(t[j]));
        let a = choose|a: int| 0 <= a < s.len() && s[a] == t[i];
        let b = choose|b: int| 0 <= b < s.len() && s[b] == t[j];
        assert(t[i] != t[j]);
        if a < b {
            assert(!ties(s[a], s[b]));
        } else {
            assert(!ties(s[b], s[a]));
        }
    }
}

/// A batch of which no two readings tie is flushed whole: every reading of it
/// comes out, in order.
pub proof fn lemma_untied_batch_flushed_whole(s: Seq<ReadingView>)
    requires
        untied(s),
    ensures
        flushed_batch(s) == s.sort_by(reading_order()),
        flushed_batch(s).len() == s.len(),
        flushed_batch(s).to_multiset() == s.to_multiset(),
        sorted_by(flushed_batch(s), reading_order()),
{
    broadcast use group_to_multiset_ensures;

    lemma_reading_order_total();
    s.lemma_sort_by_ensures(reading_order());
    lemma_sorting_keeps_untied(s);
    lemma_dedup_of_untied(s.sort_by(reading_order()));
    assert(s.to_multiset().len() == s.len());
    assert(s.sort_by(reading_order()).to_multiset().len() == s.sort_by(reading_order()).len());
}

/// Whatever is buffered, a flush hands out readings in order, none of which
/// ties with the one before it.
pub proof fn lemma_flushed_batch_ordered(s: Seq<ReadingView>, i: int)
    requires
        0 < i < flushed_batch(s).len(),
    ensures
        reading_order()(flushed_batch(s)[i - 1], flushed_batch(s)[i]),
        !ties(flushed_batch(s)[i], flushed_batch(s)[i - 1]),
{
    let t = s.sort_by(reading_order());
    lemma_reading_order_total();
    s.lemma_sort_by_ensures(reading_order());
    lemma_dedup_leaves_no_adjacent_tie(t, i);
    lemma_dedup_in_order(t, i - 1, i);
}

/// Deduplication keeps the order of what it keeps: of readings in order,
/// those that survive are in order.
pub proof fn lemma_dedup_in_order(s: Seq<ReadingView>, i: int, j: int)
    requires
        sorted_by(s, reading_order()),
        0 <= i < j < dedup(s).len(),
    ensures
        reading_order()(dedup(s)[i], dedup(s)[j]),
    decreases s.len(),
{
    if s.len() > 0 {
        let front = s.drop_last();
        let kept = dedup(front);
        assert(sorted_by(front, reading_order())) by {
            assert forall|a: int, b: int| 0 <= a < b < front.len() implies reading_order()(
                front[a],
                front[b],
            ) by {
                assert(reading_order()(s[a], s[b]));
            }
        }
        if j < kept.len() {
            lemma_dedup_in_order(front, i, j);
        } else {
            lemma_dedup_keeps_only_inputs(front, i);
            let k = choose|k: int| 0 <= k < front.len() && front[k] == kept[i];
            assert(reading_order()(s[k], s[s.len() - 1]));
        }
    }
}

} // verus!
