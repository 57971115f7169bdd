use vstd::prelude::*;

use crate::block::{type_id, BlockInfo};

verus! {

/// What an inventory slot holds.
#[derive(Clone, Copy, Debug)]
pub enum ItemType {
    Block(BlockInfo),
    Empty,
}

/// The block kind number of an item; 0 (the empty kind) for an empty slot.
pub open spec fn item_type_id(t: ItemType) -> u32 {
    match t {
        ItemType::Block(info) => type_id(info.block_type),
        ItemType::Empty => 0,
    }
}

impl ItemType {
    /// The block kind number of this item; 0 for an empty slot.
    pub fn get_type(&self) -> (r: u32)
        ensures
            r == item_type_id(*self),
    {
        match self {
            ItemType::Block(tp) => tp.block_type.id(),
            ItemType::Empty => 0,
        }
    }
}

/// One inventory slot.
#[derive(Clone, Copy, Debug)]
pub struct Item {
    pub item_type: ItemType,
}

impl Item {
    pub fn new(item_type: ItemType) -> (i: Self)
        ensures
            i.item_type == item_type,
    {
        Self { item_type }
    }
}

} // verus!
