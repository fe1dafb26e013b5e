//! Environment debuffs: a player standing in a biome too cold or too hot
//! for their protection suffers its debuff, and takes its damage.
use vstd::prelude::*;

verus! {

/// What an environment debuff is resisted with.
#[derive(Clone, Copy, Debug, PartialEq, Eq, Structural)]
pub enum EnvironmentResistanceType {
    Cold,
    Heat,
}

/// How a debuff's activation changes.
#[derive(Clone, Copy, Debug, PartialEq, Eq, Structural)]
pub enum DebuffChange {
    Unchanged,
    Activate,
    Deactivate,
}

/// The debuff's state for a player after a tick.
#[derive(Clone, Copy, Debug, PartialEq, Eq, Structural)]
pub struct DebuffUpdate {
    /// The debuff applies now (and the player takes its damage).
    pub active: bool,
    pub change: DebuffChange,
}

/// Whether a debuff applies: the player is in its biome, it does damage
/// there (on water or on ground, as the case may be), and their
/// protection is below its resistance level.
pub open spec fn debuff_applies(
    current_biome: i32,
    debuff_biome: i32,
    deals_damage: bool,
    protection: i32,
    resistance_level: i32,
) -> bool {
    current_biome == debuff_biome && deals_damage && protection < resistance_level
}

/// A debuff strikes only a player in its biome, where it deals damage,
/// whose protection is below its resistance level: enough protection, or
/// another biome, keeps a player safe; and the debuff strikes every player
/// meeting those three conditions.
pub proof fn law_protection_keeps_players_safe(
    current_biome: i32,
    debuff_biome: i32,
    deals_damage: bool,
    protection: i32,
    resistance_level: i32,
)
    ensures
        protection >= resistance_level ==> !debuff_applies(current_biome, debuff_biome, deals_damage, protection, resistance_level),
        current_biome != debuff_biome ==> !debuff_applies(current_biome, debuff_biome, deals_damage, protection, resistance_level),
        !deals_damage ==> !debuff_applies(current_biome, debuff_biome, deals_damage, protection, resistance_level),
        current_biome == debuff_biome && deals_damage && protection < resistance_level ==> debuff_applies(
            current_biome,
            debuff_biome,
            deals_damage,
            protection,
            resistance_level,
        ),
{
}

/// One tick of an environment debuff for one player: whether it applies,
/// and whether it must be switched on or off.
pub fn debuff_update(
    was_active: bool,
    current_biome: i32,
    debuff_biome: i32,
    deals_damage: bool,
    protection: i32,
    resistance_level: i32,
) -> (r: DebuffUpdate)
    ensures
        r.active == debuff_applies(current_biome, debuff_biome, deals_damage, protection, resistance_level),
        r.change == if r.active == was_active {
            DebuffChange::Unchanged
        } else if r.active {
            DebuffChange::Activate
        } else {
            DebuffChange::Deactivate
        },
        protection >= resistance_level ==> !r.active,
        current_biome != debuff_biome ==> !r.active,
        !deals_damage ==> !r.active,
        r.change == DebuffChange::Activate ==> !was_active && r.active,
        r.change == DebuffChange::Deactivate ==> was_active && !r.active,
{
    let active = current_biome == debuff_biome && deals_damage && protection < resistance_level;
    let change = if active == was_active {
        DebuffChange::Unchanged
    } else if active {
        DebuffChange::Activate
    } else {
        DebuffChange::Deactivate
    };
    DebuffUpdate { active, change }
}

} // verus!
