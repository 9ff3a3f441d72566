//! The contract that every store meets, whatever keeps its items.

use vstd::prelude::*;
use crate::item::{ItemView, StorageItem, item_views};
use crate::queue::{
    batch, batch_len, bucket, enqueue, is_max_priority, is_priority_ordered, is_slot, rank, rest,
    top_priority,
};

verus! {

/// A store of prioritised items. Its view is the queue of its pending items
/// in the order in which `pop` hands them out: highest priority first, and
/// among items of one priority the one stored first.
pub trait Storage: View<V = Seq<ItemView>> + Sized {
    /// An empty store.
    fn new() -> (store: Self)
        ensures
            store@ == Seq::<ItemView>::empty(),
    ;

    /// Stores `payload` under `priority`: the item goes behind every pending
    /// item of its own or a higher priority, that is to the end of the items
    /// of its priority. Every priority and every payload is accepted.
    fn push(&mut self, priority: u16, payload: Box<Vec<u8>>)
        ensures
            final(self)@ == enqueue(old(self)@, (ItemView { priority, data: payload@ })),
            is_slot(old(self)@, priority, rank(old(self)@, priority) as int),
            is_priority_ordered(final(self)@),
            forall|other: u16| #[trigger]
                bucket(final(self)@, other) == if other == priority {
                    bucket(old(self)@, other).push((ItemView { priority, data: payload@ }))
                } else {
                    bucket(old(self)@, other)
                },
    ;

    /// Takes up to `count` items from the front of the queue. `None` stands
    /// for "nothing to hand out": the store was empty, or `count` was 0.
    fn pop(&mut self, count: usize) -> (popped: Option<Vec<StorageItem>>)
        ensures
            is_priority_ordered(old(self)@),
            final(self)@ == rest(old(self)@, count as nat),
            popped is None <==> count == 0 || old(self)@.len() == 0,
            popped matches Some(items) ==> item_views(items@) == batch(old(self)@, count as nat),
            popped matches Some(items) ==> {
                &&& items@.len() == batch_len(old(self)@, count as nat)
                &&& forall|i: int|
                    0 <= i < items@.len() ==> (#[trigger] items@[i])@ == old(self)@[i]
            },
    ;

    /// The highest priority under which an item is pending, if any is. It is
    /// the priority of the item at the front of the queue.
    fn max_priority(&self) -> (top: Option<u16>)
        ensures
            is_priority_ordered(self@),
            is_max_priority(self@, top),
            top == top_priority(self@),
    ;

    /// Records the pending items where the store keeps them durably, if it
    /// does. The pending items stay as they are.
    fn dump(&self);

    /// Brings back what was recorded durably, if the store records anything.
    fn load(&mut self)
        ensures
            is_priority_ordered(final(self)@),
    ;

    /// Discards every pending item.
    fn clear(&mut self)
        ensures
            final(self)@ == Seq::<ItemView>::empty(),
    ;
}

} // verus!
