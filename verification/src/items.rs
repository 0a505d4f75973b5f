use vstd::prelude::*;

verus! {

/// Kind of an item stack: a regular item or a cargo.
#[derive(Clone, Copy, Debug, PartialEq, Eq, Structural)]
pub enum ItemType {
    Item,
    Cargo,
}

/// Item id of the hex coin, the game's currency.
pub const HEX_COIN_ITEM_ID: i32 = 1;

/// The code under which an item type is stored in listing rows.
pub open spec fn spec_item_type_code(t: ItemType) -> i32 {
    match t {
        ItemType::Item => 0,
        ItemType::Cargo => 1,
    }
}

/// The code under which an item type is stored in listing rows.
pub fn item_type_code(t: ItemType) -> (code: i32)
    ensures
        code == spec_item_type_code(t),
{
    match t {
        ItemType::Item => 0,
        ItemType::Cargo => 1,
    }
}

/// A stack of items of one kind.
#[derive(Clone, Copy, Debug, PartialEq, Eq, Structural)]
pub struct ItemStack {
    pub item_id: i32,
    pub item_type: ItemType,
    pub quantity: i32,
    pub durability: Option<i32>,
}

impl ItemStack {
    /// A stack of `quantity` hex coins.
    pub open spec fn spec_hex_coins(quantity: i32) -> ItemStack {
        ItemStack { item_id: HEX_COIN_ITEM_ID, item_type: ItemType::Item, quantity, durability: None }
    }

    /// A stack of `quantity` hex coins.
    pub fn hex_coins(quantity: i32) -> (s: ItemStack)
        ensures
            s == Self::spec_hex_coins(quantity),
    {
        ItemStack { item_id: HEX_COIN_ITEM_ID, item_type: ItemType::Item, quantity, durability: None }
    }

    /// This stack with another quantity.
    pub fn clone_with_quantity(&self, quantity: i32) -> (s: ItemStack)
        ensures
            s == (ItemStack { quantity, ..*self }),
    {
        ItemStack { quantity, ..*self }
    }

    /// A stack that carries no durability.
    pub fn new_ignore_durability(item_id: i32, item_type: ItemType, quantity: i32) -> (s: ItemStack)
        ensures
            s == (ItemStack { item_id, item_type, quantity, durability: None }),
    {
        ItemStack { item_id, item_type, quantity, durability: None }
    }

    /// Whether this stack is hex coins.
    pub open spec fn spec_is_hex_coins(self) -> bool {
        self.item_type == ItemType::Item && self.item_id == HEX_COIN_ITEM_ID
    }
}

} // verus!
