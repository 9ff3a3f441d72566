//! What holds of every queue, whatever store keeps it: where a new item goes,
//! what a request takes, and that nothing is lost or made up on the way.

use vstd::prelude::*;
use crate::item::ItemView;
use crate::queue::{
    at_least, batch, batch_len, bucket, enqueue, is_max_priority, is_priority_ordered, is_slot,
    rank, replay, rest, stored_under, top_priority, Call,
};

verus! {

/// A filter keeps a sequence whole when every item passes.
proof fn lemma_filter_keeps_all(items: Seq<ItemView>, pred: spec_fn(ItemView) -> bool)
    requires
        forall|i: int| 0 <= i < items.len() ==> pred(#[trigger] items[i]),
    ensures
        items.filter(pred) == items,
    decreases items.len(),
{
    reveal(Seq::filter);
    if items.len() > 0 {
        lemma_filter_keeps_all(items.drop_last(), pred);
    }
}

/// A filter leaves nothing when no item passes.
proof fn lemma_filter_keeps_none(items: Seq<ItemView>, pred: spec_fn(ItemView) -> bool)
    requires
        forall|i: int| 0 <= i < items.len() ==> !pred(#[trigger] items[i]),
    ensures
        items.filter(pred) == Seq::<ItemView>::empty(),
    decreases items.len(),
{
    reveal(Seq::filter);
    if items.len() > 0 {
        lemma_filter_keeps_none(items.drop_last(), pred);
    }
}

/// A new item goes to the one place that has every item of its own or a
/// higher priority before it and every item of a lower priority behind it.
pub proof fn lemma_enqueue_at(queue: Seq<ItemView>, item: ItemView, position: int)
    requires
        is_slot(queue, item.priority, position),
    ensures
        rank(queue, item.priority) == position,
        enqueue(queue, item) == queue.insert(position, item),
{
    let pred = at_least(item.priority);
    let head = queue.take(position);
    let tail = queue.skip(position);
    assert(queue =~= head + tail);
    lemma_filter_keeps_all(head, pred);
    lemma_filter_keeps_none(tail, pred);
}

/// In an ordered queue the items of `priority` or higher are exactly the
/// first `rank(queue, priority)` items.
pub proof fn lemma_rank_divides(queue: Seq<ItemView>, priority: u16)
    requires
        is_priority_ordered(queue),
    ensures
        is_slot(queue, priority, rank(queue, priority) as int),
    decreases queue.len(),
{
    reveal(Seq::filter);
    if queue.len() > 0 {
        let front = queue.drop_last();
        lemma_rank_divides(front, priority);
        if queue.last().priority < priority {
            assert forall|i: int| 0 <= i < rank(queue, priority) implies (
            #[trigger] queue[i]).priority >= priority by {
                assert(queue[i] == front[i]);
            }
        }
    }
}

/// Storing an item keeps the queue ordered and makes it one item longer.
pub proof fn lemma_enqueue_keeps_order(queue: Seq<ItemView>, item: ItemView)
    requires
        is_priority_ordered(queue),
    ensures
        is_priority_ordered(enqueue(queue, item)),
        enqueue(queue, item).len() == queue.len() + 1,
{
    lemma_rank_divides(queue, item.priority);
}

/// First in, first out among equals: a new item goes to the end of the
/// items of its own priority, and the items of every other priority stay as
/// they are.
pub proof fn lemma_enqueue_bucket(queue: Seq<ItemView>, item: ItemView, priority: u16)
    requires
        is_priority_ordered(queue),
    ensures
        bucket(enqueue(queue, item), priority) == if priority == item.priority {
            bucket(queue, priority).push(item)
        } else {
            bucket(queue, priority)
        },
{
    lemma_rank_divides(queue, item.priority);
    let position = rank(queue, item.priority) as int;
    let pred = stored_under(priority);
    let head = queue.take(position);
    let tail = queue.skip(position);
    assert(queue =~= head + tail);
    Seq::lemma_filter_push(head, item, pred);
    if priority == item.priority {
        lemma_filter_keeps_none(tail, pred);
    }
}

/// Storing an item adds that item to what the queue holds, and nothing else.
pub proof fn lemma_enqueue_multiset(queue: Seq<ItemView>, item: ItemView)
    ensures
        enqueue(queue, item).to_multiset() == queue.to_multiset().insert(item),
{
    vstd::seq_lib::to_multiset_insert(queue, rank(queue, item.priority) as int, item);
}

/// A request divides the queue in two: what it takes, followed by what it
/// leaves, is the queue as it was.
pub proof fn lemma_batch_and_rest(queue: Seq<ItemView>, count: nat)
    ensures
        batch(queue, count) + rest(queue, count) == queue,
        batch(queue, count).len() == batch_len(queue, count),
        batch(queue, count).to_multiset().add(rest(queue, count).to_multiset())
            == queue.to_multiset(),
{
    vstd::seq_lib::lemma_multiset_commutative(batch(queue, count), rest(queue, count));
}

/// What a request takes from an ordered queue is ordered, what it leaves is
/// ordered, and nothing that it leaves has a higher priority than anything
/// that it takes.
pub proof fn lemma_batch_ordered(queue: Seq<ItemView>, count: nat)
    requires
        is_priority_ordered(queue),
    ensures
        is_priority_ordered(batch(queue, count)),
        is_priority_ordered(rest(queue, count)),
        forall|i: int, j: int|
            0 <= i < batch(queue, count).len() && 0 <= j < rest(queue, count).len() ==> batch(
                queue,
                count,
            )[i].priority >= rest(queue, count)[j].priority,
{
}

/// A request takes the oldest items of each priority: the items of a
/// priority are those that the request takes followed by those that it leaves.
pub proof fn lemma_batch_bucket(queue: Seq<ItemView>, count: nat, priority: u16)
    ensures
        bucket(queue, priority) == bucket(batch(queue, count), priority) + bucket(
            rest(queue, count),
            priority,
        ),
{
    lemma_batch_and_rest(queue, count);
}

/// A request on an empty queue, or for no items, takes nothing and leaves
/// the queue as it was.
pub proof fn lemma_nothing_to_take(queue: Seq<ItemView>, count: nat)
    requires
        queue.len() == 0 || count == 0,
    ensures
        batch(queue, count) == Seq::<ItemView>::empty(),
        rest(queue, count) == queue,
{
}

/// An item stored in an empty queue is what a request for one item takes,
/// with the priority and the payload that it came with, and the queue is
/// empty again.
pub proof fn lemma_single_item(item: ItemView)
    ensures
        enqueue(Seq::empty(), item) == seq![item],
        batch(enqueue(Seq::empty(), item), 1) == seq![item],
        rest(enqueue(Seq::empty(), item), 1) == Seq::<ItemView>::empty(),
{
}

/// The front of an ordered queue has the highest priority in it.
pub proof fn lemma_top_is_max(queue: Seq<ItemView>)
    requires
        is_priority_ordered(queue),
    ensures
        is_max_priority(queue, top_priority(queue)),
{
}

/// A queue has one highest priority: asked twice of the same queue, the
/// answer is the same.
pub proof fn lemma_max_priority_unique(
    queue: Seq<ItemView>,
    first: Option<u16>,
    second: Option<u16>,
)
    requires
        is_max_priority(queue, first),
        is_max_priority(queue, second),
    ensures
        first == second,
{
}

/// Nothing is lost and nothing is made up: after any run of pushes and pops
/// on a new store, the items pushed are the items popped together with the
/// items still pending. The queue is ordered throughout.
pub proof fn lemma_nothing_lost(calls: Seq<Call>)
    ensures
        is_priority_ordered(replay(calls).queue),
        replay(calls).pushed.to_multiset() == replay(calls).popped.to_multiset().add(
            replay(calls).queue.to_multiset(),
        ),
    decreases calls.len(),
{
    broadcast use vstd::seq_lib::group_to_multiset_ensures;

    if calls.len() > 0 {
        let before = replay(calls.drop_last());
        lemma_nothing_lost(calls.drop_last());
        match calls.last() {
            Call::Push(item) => {
                lemma_enqueue_keeps_order(before.queue, item);
            },
            Call::Pop(count) => {
                lemma_batch_and_rest(before.queue, count);
                vstd::seq_lib::lemma_multiset_commutative(
                    before.popped,
                    batch(before.queue, count),
                );
            },
        }
    }
}

/// First in, first out: after any run of pushes and pops on a new store, the
/// items pushed under one priority are, in the order in which they were
/// pushed, the items of that priority that were popped, in the order in which
/// they were handed out, followed by those still pending.
pub proof fn lemma_first_in_first_out(calls: Seq<Call>, priority: u16)
    ensures
        bucket(replay(calls).pushed, priority) == bucket(replay(calls).popped, priority) + bucket(
            replay(calls).queue,
            priority,
        ),
    decreases calls.len(),
{
    let pred = stored_under(priority);
    if calls.len() == 0 {
    } else {
        let before = replay(calls.drop_last());
        lemma_first_in_first_out(calls.drop_last(), priority);
        match calls.last() {
            Call::Push(item) => {
                lemma_nothing_lost(calls.drop_last());
                lemma_enqueue_bucket(before.queue, item, priority);
                Seq::lemma_filter_push(before.pushed, item, pred);
            },
            Call::Pop(count) => {
                lemma_batch_bucket(before.queue, count, priority);
            },
        }
    }
}

/// Round trip: once pops have emptied the store, the items popped are the
/// items pushed, each as often as it was pushed.
pub proof fn lemma_round_trip(calls: Seq<Call>)
    requires
        replay(calls).queue.len() == 0,
    ensures
        replay(calls).popped.to_multiset() == replay(calls).pushed.to_multiset(),
{
    broadcast use vstd::seq_lib::group_to_multiset_ensures;

    lemma_nothing_lost(calls);
}

} // verus!
