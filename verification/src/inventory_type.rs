//! The kinds of container an inventory belongs to.
use vstd::prelude::*;

verus! {

/// Where an inventory belongs.
#[derive(Clone, Copy, Debug, PartialEq, Eq, Structural)]
pub enum InventoryType {
    Player,
    Building,
    Deployable,
    LootChest,
    Dropped,
}

} // verus!
