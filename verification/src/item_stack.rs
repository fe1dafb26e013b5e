//! Item stacks and the pockets of an inventory that hold them.
use vstd::prelude::*;

verus! {

/// Id of the hex coin, the game's currency item.
pub const HEX_COIN_ID: i32 = 1;

/// Whether a stack holds ordinary items or cargo.
#[derive(Clone, Copy, Debug, PartialEq, Eq, Structural)]
pub enum ItemType {
    Item,
    Cargo,
}

/// A quantity of one item, optionally with the durability left on it.
#[derive(Clone, Copy, Debug, PartialEq, Eq, Structural)]
pub struct ItemStack {
    pub item_id: i32,
    pub item_type: ItemType,
    pub quantity: i32,
    pub durability: Option<i32>,
}

/// One slot of an inventory: a volume budget and at most one stack.
#[derive(Clone, Copy, Debug, PartialEq, Eq, Structural)]
pub struct Pocket {
    pub volume: i32,
    pub contents: Option<ItemStack>,
    pub locked: bool,
}

impl ItemStack {
    /// A stack of `quantity` hex coins.
    pub open spec fn spec_hex_coins(quantity: i32) -> ItemStack {
        ItemStack { item_id: HEX_COIN_ID, item_type: ItemType::Item, quantity, durability: None }
    }

    /// A stack of `quantity` hex coins.
    pub fn hex_coins(quantity: i32) -> (r: ItemStack)
        ensures
            r == Self::spec_hex_coins(quantity),
    {
        ItemStack { item_id: HEX_COIN_ID, item_type: ItemType::Item, quantity, durability: None }
    }

    /// The same item with another quantity.
    pub fn clone_with_quantity(&self, quantity: i32) -> (r: ItemStack)
        ensures
            r == (ItemStack { quantity, ..*self }),
    {
        ItemStack { quantity, ..*self }
    }
}

/// Quantity held by a pocket (zero when it is empty).
pub open spec fn pocket_quantity(p: Pocket) -> int {
    match p.contents {
        Some(c) => c.quantity as int,
        None => 0,
    }
}

/// How many more items of volume `item_volume` fit in `p`: the whole items
/// that the unoccupied part of its volume can take, never below zero.
pub open spec fn spec_can_fit(p: Pocket, item_volume: int) -> int {
    let occupied = pocket_quantity(p) * item_volume;
    if p.volume <= occupied {
        0
    } else {
        (p.volume as int) / item_volume - pocket_quantity(p)
    }
}

impl Pocket {
    /// An empty, unlocked pocket of the given volume.
    pub fn empty(volume: i32) -> (r: Pocket)
        ensures
            r == (Pocket { volume, contents: None, locked: false }),
    {
        Pocket { volume, contents: None, locked: false }
    }

    /// Whole items of volume `item_volume` that still fit in this pocket.
    pub fn can_fit_quantity(&self, item_volume: i32) -> (r: i32)
        requires
            item_volume > 0,
            pocket_quantity(*self) >= 0,
        ensures
            r == spec_can_fit(*self, item_volume as int),
            0 <= r,
            pocket_quantity(*self) + r <= i32::MAX,
    {
        let q: i64 = match self.contents {
            Some(c) => c.quantity as i64,
            None => 0,
        };
        assert(0 <= q * (item_volume as i64) <= i32::MAX as int * i32::MAX as int) by (nonlinear_arith)
            requires
                0 <= q <= i32::MAX,
                0 < item_volume <= i32::MAX,
        ;
        let occupied: i64 = q * (item_volume as i64);
        if (self.volume as i64) <= occupied {
            0
        } else {
            proof {
                let v = self.volume as int;
                let iv = item_volume as int;
                assert(v / iv >= q) by (nonlinear_arith)
                    requires
                        v > q * iv,
                        iv > 0,
                        q >= 0,
                ;
                assert(v / iv <= v) by (nonlinear_arith)
                    requires
                        v >= 0,
                        iv > 0,
                ;
            }
            self.volume / item_volume - (q as i32)
        }
    }
}

} // verus!
