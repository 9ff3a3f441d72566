//! The mathematical model of a store: the queue of its pending items, written
//! down in the order in which they will be handed out.

use vstd::prelude::*;
use crate::item::ItemView;

verus! {

/// No item stands behind an item of lower priority.
pub open spec fn is_priority_ordered(queue: Seq<ItemView>) -> bool {
    forall|i: int, j: int| 0 <= i < j < queue.len() ==> queue[i].priority >= queue[j].priority
}

/// The test "this item has `priority` or a higher one".
pub open spec fn at_least(priority: u16) -> spec_fn(ItemView) -> bool {
    |pending: ItemView| pending.priority >= priority
}

/// The test "this item has exactly `priority`".
pub open spec fn stored_under(priority: u16) -> spec_fn(ItemView) -> bool {
    |pending: ItemView| pending.priority == priority
}

/// Whether `position` is the place in `queue` for a new item of `priority`:
/// every item before it has that priority or a higher one, and every item
/// from it on has a lower one. The last two lines say so once more of the two
/// items next to the place, where a solver finds it without a search.
pub open spec fn is_slot(queue: Seq<ItemView>, priority: u16, position: int) -> bool {
    &&& 0 <= position <= queue.len()
    &&& forall|i: int| 0 <= i < position ==> (#[trigger] queue[i]).priority >= priority
    &&& forall|i: int| position <= i < queue.len() ==> (#[trigger] queue[i]).priority < priority
    &&& position > 0 ==> queue[position - 1].priority >= priority
    &&& position < queue.len() ==> queue[position].priority < priority
}

/// The number of items in `queue` whose priority is `priority` or higher: the
/// items that are handed out before one that arrives now with `priority`.
pub open spec fn rank(queue: Seq<ItemView>, priority: u16) -> nat {
    queue.filter(at_least(priority)).len()
}

/// The queue after `item` has been stored: it goes behind every item of its
/// own or a higher priority, and before every item of a lower one.
pub open spec fn enqueue(queue: Seq<ItemView>, item: ItemView) -> Seq<ItemView> {
    queue.insert(rank(queue, item.priority) as int, item)
}

/// The number of items that a request for `count` items takes from `queue`:
/// `count`, or all of them if there are fewer.
pub open spec fn batch_len(queue: Seq<ItemView>, count: nat) -> nat {
    if count <= queue.len() {
        count
    } else {
        queue.len()
    }
}

/// The items that a request for `count` items takes from `queue`, in the order
/// in which they are handed out.
pub open spec fn batch(queue: Seq<ItemView>, count: nat) -> Seq<ItemView> {
    queue.take(batch_len(queue, count) as int)
}

/// The queue that a request for `count` items leaves behind.
pub open spec fn rest(queue: Seq<ItemView>, count: nat) -> Seq<ItemView> {
    queue.skip(batch_len(queue, count) as int)
}

/// The priority of the item at the front of `queue`, if there is one.
pub open spec fn top_priority(queue: Seq<ItemView>) -> Option<u16> {
    if queue.len() == 0 {
        None
    } else {
        Some(queue[0].priority)
    }
}

/// Whether `top` is the answer to "what is the highest priority in `queue`":
/// a priority that some item has and none exceeds, or `None` for an empty
/// queue.
pub open spec fn is_max_priority(queue: Seq<ItemView>, top: Option<u16>) -> bool {
    match top {
        Some(priority) => {
            &&& exists|i: int| 0 <= i < queue.len() && (#[trigger] queue[i]).priority == priority
            &&& forall|i: int| 0 <= i < queue.len() ==> (#[trigger] queue[i]).priority <= priority
        },
        None => queue.len() == 0,
    }
}

/// The items of `queue` that were stored under `priority`, in queue order.
pub open spec fn bucket(queue: Seq<ItemView>, priority: u16) -> Seq<ItemView> {
    queue.filter(stored_under(priority))
}

/// One call that stores or takes items.
pub ghost enum Call {
    /// `push` of this item.
    Push(ItemView),
    /// `pop` of up to this many items.
    Pop(nat),
}

/// What a run of calls on a new store has led to.
pub ghost struct History {
    /// The queue as it stands after the calls.
    pub queue: Seq<ItemView>,
    /// Every item that was pushed, in the order of the calls.
    pub pushed: Seq<ItemView>,
    /// Every item that was popped, in the order in which it was handed out.
    pub popped: Seq<ItemView>,
}

/// The history of a new store on which `calls` were made in turn.
pub open spec fn replay(calls: Seq<Call>) -> History
    decreases calls.len(),
{
    if calls.len() == 0 {
        History { queue: Seq::empty(), pushed: Seq::empty(), popped: Seq::empty() }
    } else {
        let before = replay(calls.drop_last());
        match calls.last() {
            Call::Push(item) => History {
                queue: enqueue(before.queue, item),
                pushed: before.pushed.push(item),
                popped: before.popped,
            },
            Call::Pop(count) => History {
                queue: rest(before.queue, count),
                pushed: before.pushed,
                popped: before.popped + batch(before.queue, count),
            },
        }
    }
}

} // verus!
