//! How a map from priority to bucket stands for a queue: the buckets are laid
//! end to end, the highest priority first.

use vstd::prelude::*;
use crate::item::ItemView;
use crate::laws::lemma_enqueue_at;
use crate::queue::{enqueue, is_priority_ordered, top_priority};

verus! {

/// One more than the highest priority.
pub(crate) open spec fn priority_limit() -> int {
    u16::MAX + 1
}

/// The bucket kept under `priority`; empty where the map has none.
pub(crate) open spec fn bucket_of(
    buckets: Map<u16, Seq<ItemView>>,
    priority: int,
) -> Seq<ItemView> {
    if 0 <= priority <= u16::MAX && buckets.contains_key(priority as u16) {
        buckets[priority as u16]
    } else {
        Seq::empty()
    }
}

/// The buckets of the priorities from `lo` up to, but not including, `hi`,
/// laid end to end from the highest priority down.
pub(crate) open spec fn span(buckets: Map<u16, Seq<ItemView>>, lo: int, hi: int) -> Seq<ItemView>
    decreases hi - lo,
{
    if hi <= lo {
        Seq::empty()
    } else {
        bucket_of(buckets, hi - 1) + span(buckets, lo, hi - 1)
    }
}

/// All buckets laid end to end, the highest priority first.
pub(crate) open spec fn drain_order(buckets: Map<u16, Seq<ItemView>>) -> Seq<ItemView> {
    span(buckets, 0, priority_limit())
}

/// Every item lies in the bucket of its own priority.
pub(crate) open spec fn tagged(buckets: Map<u16, Seq<ItemView>>) -> bool {
    forall|priority: u16, i: int|
        buckets.contains_key(priority) && 0 <= i < buckets[priority].len() ==> (
        #[trigger] buckets[priority][i]).priority == priority
}

/// No bucket of a priority from `lo` up to, but not including, `hi` holds an
/// item.
pub(crate) open spec fn vacant(buckets: Map<u16, Seq<ItemView>>, lo: int, hi: int) -> bool {
    forall|priority: int|
        lo <= priority < hi ==> (#[trigger] bucket_of(buckets, priority)).len() == 0
}

/// A span falls into its upper and its lower part at any priority in it.
pub(crate) proof fn lemma_span_split(buckets: Map<u16, Seq<ItemView>>, lo: int, mid: int, hi: int)
    requires
        lo <= mid <= hi,
    ensures
        span(buckets, lo, hi) == span(buckets, mid, hi) + span(buckets, lo, mid),
    decreases hi - mid,
{
    if mid < hi {
        lemma_span_split(buckets, lo, mid, hi - 1);
    }
}

/// The items of a span have the priorities of that span.
pub(crate) proof fn lemma_span_priorities(buckets: Map<u16, Seq<ItemView>>, lo: int, hi: int)
    requires
        tagged(buckets),
    ensures
        forall|i: int|
            0 <= i < span(buckets, lo, hi).len() ==> lo <= (
            #[trigger] span(buckets, lo, hi)[i]).priority < hi,
    decreases hi - lo,
{
    if lo < hi {
        lemma_span_priorities(buckets, lo, hi - 1);
        let head = bucket_of(buckets, hi - 1);
        let tail = span(buckets, lo, hi - 1);
        assert forall|i: int| 0 <= i < (head + tail).len() implies lo <= (
        #[trigger] (head + tail)[i]).priority < hi by {}
    }
}

/// Two maps with the same buckets over a span have the same span.
pub(crate) proof fn lemma_span_agrees(
    a: Map<u16, Seq<ItemView>>,
    b: Map<u16, Seq<ItemView>>,
    lo: int,
    hi: int,
)
    requires
        forall|priority: int|
            lo <= priority < hi ==> bucket_of(a, priority) == bucket_of(b, priority),
    ensures
        span(a, lo, hi) == span(b, lo, hi),
    decreases hi - lo,
{
    if lo < hi {
        lemma_span_agrees(a, b, lo, hi - 1);
    }
}

/// A span is empty exactly when each of its buckets is.
pub(crate) proof fn lemma_span_vacant(buckets: Map<u16, Seq<ItemView>>, lo: int, hi: int)
    ensures
        vacant(buckets, lo, hi) <==> span(buckets, lo, hi).len() == 0,
    decreases hi - lo,
{
    if lo < hi {
        lemma_span_vacant(buckets, lo, hi - 1);
    }
}

/// Buckets laid end to end from the highest priority down are in priority
/// order.
pub(crate) proof fn lemma_span_ordered(buckets: Map<u16, Seq<ItemView>>, lo: int, hi: int)
    requires
        tagged(buckets),
    ensures
        is_priority_ordered(span(buckets, lo, hi)),
    decreases hi - lo,
{
    if lo < hi {
        lemma_span_ordered(buckets, lo, hi - 1);
        lemma_span_priorities(buckets, lo, hi - 1);
    }
}

/// At any priority the queue falls into three parts: the buckets above it,
/// its own bucket, and the buckets below it.
pub(crate) proof fn lemma_drain_order_parts(buckets: Map<u16, Seq<ItemView>>, priority: u16)
    ensures
        drain_order(buckets) == span(buckets, priority + 1, priority_limit()) + bucket_of(
            buckets,
            priority as int,
        ) + span(buckets, 0, priority as int),
{
    lemma_span_split(buckets, 0, priority as int, priority_limit());
    lemma_span_split(buckets, priority as int, priority + 1, priority_limit());
    assert(span(buckets, priority as int, priority as int) =~= Seq::<ItemView>::empty());
}

/// To append an item to the bucket of its priority is to enqueue it.
pub(crate) proof fn lemma_append_is_enqueue(buckets: Map<u16, Seq<ItemView>>, item: ItemView)
    requires
        tagged(buckets),
    ensures
        ({
            let own = bucket_of(buckets, item.priority as int);
            let after = buckets.insert(item.priority, own.push(item));
            &&& tagged(after)
            &&& drain_order(after) == enqueue(drain_order(buckets), item)
        }),
{
    let priority = item.priority;
    let own = bucket_of(buckets, priority as int);
    let after = buckets.insert(priority, own.push(item));
    let above = span(buckets, priority + 1, priority_limit());
    lemma_drain_order_parts(buckets, priority);
    lemma_drain_order_parts(after, priority);
    lemma_span_agrees(buckets, after, priority + 1, priority_limit());
    lemma_span_agrees(buckets, after, 0, priority as int);
    lemma_span_priorities(buckets, priority + 1, priority_limit());
    lemma_span_priorities(buckets, 0, priority as int);
    lemma_enqueue_at(drain_order(buckets), item, (above.len() + own.len()) as int);
}

/// To take the first `k` items of the highest bucket that holds any is to take
/// the first `k` items of the queue.
pub(crate) proof fn lemma_take_from_top(buckets: Map<u16, Seq<ItemView>>, priority: u16, k: int)
    requires
        tagged(buckets),
        vacant(buckets, priority + 1, priority_limit()),
        0 <= k <= bucket_of(buckets, priority as int).len(),
    ensures
        ({
            let own = bucket_of(buckets, priority as int);
            let after = buckets.insert(priority, own.skip(k));
            &&& tagged(after)
            &&& k <= drain_order(buckets).len()
            &&& drain_order(buckets).take(k) == own.take(k)
            &&& drain_order(after) == drain_order(buckets).skip(k)
        }),
{
    let own = bucket_of(buckets, priority as int);
    let after = buckets.insert(priority, own.skip(k));
    lemma_drain_order_parts(buckets, priority);
    lemma_drain_order_parts(after, priority);
    lemma_span_agrees(buckets, after, priority + 1, priority_limit());
    lemma_span_agrees(buckets, after, 0, priority as int);
    lemma_span_vacant(buckets, priority + 1, priority_limit());
}

/// The highest bucket that holds an item gives the front of the queue.
pub(crate) proof fn lemma_top_bucket(buckets: Map<u16, Seq<ItemView>>, priority: u16)
    requires
        tagged(buckets),
        vacant(buckets, priority + 1, priority_limit()),
        bucket_of(buckets, priority as int).len() > 0,
    ensures
        top_priority(drain_order(buckets)) == Some(priority),
{
    lemma_drain_order_parts(buckets, priority);
    lemma_span_vacant(buckets, priority + 1, priority_limit());
}

} // verus!
