//! Verified game-state rules of a voxel-world game server: inventories and
//! the transfers between a player's containers, rents, resource respawning,
//! prospecting trails, building placement, achievements, ability unlocks,
//! quests, duels, traders and the schedules of the server's periodic agents.
use vstd::prelude::*;

pub mod item_stack;
pub mod inventory;
pub mod inventory_fill;
pub mod inventory_transfer;
pub mod inventory_pool;
pub mod inventory_laws;
pub mod tool_wear;
pub mod rent;
pub mod resources;
pub mod crumb_trail;
pub mod achievement;
pub mod character_stats;
pub mod inventory_type;
pub mod placement;
pub mod environment;
pub mod schedule;
pub mod duel;
pub mod npc;
pub mod enemy_scaling;
pub mod deployable;
pub mod housing;
pub mod ability_unlock;
pub mod quest;
pub mod passive_craft;
pub mod lost_items;
pub mod building;
pub mod waystone;

verus! {

} // verus!
