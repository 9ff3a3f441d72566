//! The store that keeps its items in memory, one bucket for each priority.

use std::collections::HashMap;
use vstd::prelude::*;
use crate::buckets::{
    bucket_of, drain_order, lemma_append_is_enqueue, lemma_span_ordered, lemma_span_vacant,
    lemma_take_from_top, lemma_top_bucket, priority_limit, tagged, vacant,
};
use crate::item::{ItemView, StorageItem, item_views};
use crate::laws::{lemma_enqueue_bucket, lemma_rank_divides};
use crate::queue::{
    batch, batch_len, bucket, enqueue, is_max_priority, is_priority_ordered, is_slot, rank, rest,
    top_priority,
};
use crate::storage::Storage;

verus! {

/// The buckets of a map of stored items, as the contracts see them.
spec fn buckets_of(elements: Map<u16, Vec<StorageItem>>) -> Map<u16, Seq<ItemView>> {
    elements.map_values(|items: Vec<StorageItem>| item_views(items@))
}

/// The highest priority whose bucket holds an item, if there is one. Every
/// bucket is looked at: the map keeps them in no order.
fn highest_occupied(elements: &HashMap<u16, Vec<StorageItem>>) -> (top: Option<u16>)
    ensures
        match top {
            Some(priority) => {
                &&& bucket_of(buckets_of(elements@), priority as int).len() > 0
                &&& vacant(buckets_of(elements@), priority + 1, priority_limit())
            },
            None => vacant(buckets_of(elements@), 0, priority_limit()),
        },
{
    let mut max_priority: u16 = 0;
    let mut found = false;

    for (priority, items) in it: elements.iter()
        invariant
            !found ==> max_priority == 0,
            found ==> elements@.contains_key(max_priority) && elements@[max_priority]@.len() > 0,
            forall|j: int|
                0 <= j < it.index() && (#[trigger] it.seq()[j]).1@.len() > 0 ==> found
                    && *it.seq()[j].0 <= max_priority,
            it.index() == it.seq().len() ==> forall|key: u16|
                elements@.contains_key(key) && (#[trigger] elements@[key])@.len() > 0 ==> found
                    && key <= max_priority,
    {
        if !items.is_empty() {
            found = true;
            if *priority > max_priority {
                max_priority = *priority
            }
        }
        assert forall|key: u16|
            it.index() + 1 == it.seq().len() && elements@.contains_key(key) && (
            #[trigger] elements@[key])@.len() > 0 implies found && key <= max_priority by {}
    }

    match found {
        true => Some(max_priority),
        false => None,
    }
}

/// A store held in memory: a map from each priority in use to the bucket of
/// the items stored under it, oldest first. A bucket stays in the map when it
/// has been emptied.
pub struct HashStorage {
    elements: HashMap<u16, Vec<StorageItem>>,
}

impl View for HashStorage {
    type V = Seq<ItemView>;

    /// The queue of the pending items: the buckets laid end to end, the
    /// highest priority first.
    closed spec fn view(&self) -> Seq<ItemView> {
        drain_order(buckets_of(self.elements@))
    }
}

impl HashStorage {
    /// Every item lies in the bucket of its own priority.
    #[verifier::type_invariant]
    spec fn well_formed(self) -> bool {
        tagged(buckets_of(self.elements@))
    }

    /// Hands out the map of buckets and leaves an empty one in its place. The
    /// methods that change buckets work on the map that they took and put it
    /// back when it is in order again, so that the invariant holds of the
    /// store at every step.
    fn take_elements(&mut self) -> (elements: HashMap<u16, Vec<StorageItem>>)
        ensures
            elements == old(self).elements,
    {
        let mut elements = HashMap::new();
        core::mem::swap(&mut self.elements, &mut elements);
        elements
    }

    /// An empty store.
    pub fn new() -> (store: Self)
        ensures
            store@ == Seq::<ItemView>::empty(),
    {
        let store = HashStorage { elements: HashMap::new() };
        proof {
            lemma_span_vacant(buckets_of(store.elements@), 0, priority_limit());
        }
        store
    }

    /// Appends `payload` to the bucket of `priority`, which is made if there
    /// is none yet: the item goes behind every pending item of its own or a
    /// higher priority. Every priority and every payload is accepted.
    pub fn push(&mut self, priority: u16, payload: Box<Vec<u8>>)
        ensures
            final(self)@ == enqueue(old(self)@, (ItemView { priority, data: payload@ })),
            is_slot(old(self)@, priority, rank(old(self)@, priority) as int),
            is_priority_ordered(final(self)@),
            forall|other: u16| #[trigger]
                bucket(final(self)@, other) == if other == priority {
                    bucket(old(self)@, other).push((ItemView { priority, data: payload@ }))
                } else {
                    bucket(old(self)@, other)
                },
    {
        proof {
            use_type_invariant(&*self);
        }
        let storage_item = StorageItem { priority: priority, data: payload };
        let ghost before = buckets_of(self.elements@);
        let ghost item = storage_item@;
        let mut elements = self.take_elements();
        elements.entry(priority).or_insert(Vec::new()).push(storage_item);
        proof {
            let own = bucket_of(before, priority as int);
            let after = before.insert(priority, own.push(item));
            assert(item_views(elements@[priority]@) =~= own.push(item));
            assert(buckets_of(elements@) =~= after);
            lemma_append_is_enqueue(before, item);
            lemma_span_ordered(before, 0, priority_limit());
            lemma_rank_divides(drain_order(before), priority);
            assert forall|other: u16| #[trigger]
                bucket(drain_order(after), other) == if other == priority {
                    bucket(drain_order(before), other).push(item)
                } else {
                    bucket(drain_order(before), other)
                } by {
                lemma_enqueue_bucket(drain_order(before), item, other);
            }
        }
        self.elements = elements;
    }

    /// Takes up to `count` items from the front of the queue: the bucket of
    /// the highest priority is drained from its front, then the next one,
    /// until `count` items are found or no bucket holds an item. Fewer than
    /// `count` items are no failure. `None` stands for "nothing to hand out":
    /// the store was empty, or `count` was 0.
    pub fn pop(&mut self, count: usize) -> (popped: Option<Vec<StorageItem>>)
        ensures
            is_priority_ordered(old(self)@),
            final(self)@ == rest(old(self)@, count as nat),
            popped is None <==> count == 0 || old(self)@.len() == 0,
            popped matches Some(items) ==> item_views(items@) == batch(old(self)@, count as nat),
            popped matches Some(items) ==> {
                &&& items@.len() == batch_len(old(self)@, count as nat)
                &&& forall|i: int|
                    0 <= i < items@.len() ==> (#[trigger] items@[i])@ == old(self)@[i]
            },
    {
        proof {
            use_type_invariant(&*self);
            lemma_span_ordered(buckets_of(self.elements@), 0, priority_limit());
        }
        let ghost queue = self@;
        let mut elements = self.take_elements();
        let mut found: usize = 0;
        // The result grows as items are found: `count` may be far more than
        // the store holds.
        let mut items: Vec<StorageItem> = Vec::new();

        while found < count
            invariant
                tagged(buckets_of(elements@)),
                found == items@.len(),
                found <= count,
                item_views(items@) + drain_order(buckets_of(elements@)) == queue,
            ensures
                found == count || drain_order(buckets_of(elements@)).len() == 0,
            decreases count - found,
        {
            match highest_occupied(&elements) {
                Some(priority) => {
                    let ghost before = buckets_of(elements@);
                    let ghost taken = item_views(items@);
                    let mut priority_elements = elements.remove(&priority).unwrap();
                    let missing_elements = count - found;
                    let len = priority_elements.len();
                    let range_end = match missing_elements > len {
                        true => len,
                        false => missing_elements,
                    };
                    let remaining_elements = priority_elements.split_off(range_end);
                    items.append(&mut priority_elements);
                    elements.insert(priority, remaining_elements);
                    found += range_end;
                    proof {
                        let own = bucket_of(before, priority as int);
                        let after = before.insert(priority, own.skip(range_end as int));
                        lemma_take_from_top(before, priority, range_end as int);
                        assert(item_views(elements@[priority]@) =~= own.skip(range_end as int));
                        assert(buckets_of(elements@) =~= after);
                        assert(taken + own.take(range_end as int) + drain_order(after) =~= queue);
                    }
                },
                None => {
                    proof {
                        lemma_span_vacant(buckets_of(elements@), 0, priority_limit());
                    }
                    break ;
                },
            }
        }
        self.elements = elements;
        match found == 0 {
            true => None,
            false => Some(items),
        }
    }

    /// The highest priority whose bucket holds an item, or `None` if no
    /// bucket does. It is the priority of the item at the front of the queue.
    pub fn max_priority(&self) -> (top: Option<u16>)
        ensures
            is_priority_ordered(self@),
            is_max_priority(self@, top),
            top == top_priority(self@),
    {
        proof {
            use_type_invariant(self);
            lemma_span_ordered(buckets_of(self.elements@), 0, priority_limit());
        }
        let top = highest_occupied(&self.elements);
        proof {
            match top {
                Some(priority) => lemma_top_bucket(buckets_of(self.elements@), priority),
                None => lemma_span_vacant(buckets_of(self.elements@), 0, priority_limit()),
            }
        }
        top
    }

    /// Nothing is recorded: this store lives in memory only.
    pub fn dump(&self) {
    }

    /// Nothing was recorded, so nothing comes back: the pending items stay
    /// as they are.
    pub fn load(&mut self)
        ensures
            final(self)@ == old(self)@,
            is_priority_ordered(final(self)@),
    {
        proof {
            use_type_invariant(&*self);
            lemma_span_ordered(buckets_of(self.elements@), 0, priority_limit());
        }
    }

    /// Discards every bucket and every pending item.
    pub fn clear(&mut self)
        ensures
            final(self)@ == Seq::<ItemView>::empty(),
    {
        let mut elements = self.take_elements();
        elements.clear();
        proof {
            lemma_span_vacant(buckets_of(elements@), 0, priority_limit());
        }
        self.elements = elements;
    }
}

impl Storage for HashStorage {
    fn new() -> (store: Self) {
        HashStorage::new()
    }

    fn push(&mut self, priority: u16, payload: Box<Vec<u8>>) {
        HashStorage::push(self, priority, payload)
    }

    fn pop(&mut self, count: usize) -> (popped: Option<Vec<StorageItem>>) {
        HashStorage::pop(self, count)
    }

    fn max_priority(&self) -> (top: Option<u16>) {
        HashStorage::max_priority(self)
    }

    fn dump(&self) {
        HashStorage::dump(self)
    }

    fn load(&mut self) {
        HashStorage::load(self)
    }

    fn clear(&mut self) {
        HashStorage::clear(self)
    }
}

} // verus!
