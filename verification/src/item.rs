//! The record that a store holds, and its mathematical view.

use vstd::prelude::*;

verus! {

/// What a [`StorageItem`] is to the contracts: its priority and the bytes of
/// its payload.
pub ghost struct ItemView {
    pub priority: u16,
    pub data: Seq<u8>,
}

/// A payload tagged with the priority under which it was stored. Higher
/// priorities are retrieved first. The store never looks into the payload.
#[derive(Debug, Clone, PartialEq, Eq)]
pub struct StorageItem {
    pub priority: u16,
    pub data: Box<Vec<u8>>,
}

impl View for StorageItem {
    type V = ItemView;

    open spec fn view(&self) -> ItemView {
        ItemView { priority: self.priority, data: self.data@ }
    }
}

/// The views of a run of items, in the same order.
pub open spec fn item_views(items: Seq<StorageItem>) -> Seq<ItemView> {
    items.map_values(|item: StorageItem| item@)
}

} // verus!
