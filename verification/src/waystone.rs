//! Teleporting between waystones: which pairs of waystones a player may
//! travel between, before the energy it costs is weighed.
use vstd::prelude::*;

verus! {

/// Reach, in tiles, within which a player may use a waystone anywhere.
pub const WAYSTONE_REACH: i32 = 7;

/// What is known of one waystone building.
#[derive(Clone, Copy, Debug, PartialEq, Eq, Structural)]
pub struct WaystoneBuilding {
    pub claim_entity_id: u64,
    /// Its description exists.
    pub described: bool,
    /// Its description has the waystone category.
    pub is_waystone: bool,
    /// Its location exists.
    pub located: bool,
}

/// Why a waystone teleport is refused.
#[derive(Clone, Copy, Debug, PartialEq, Eq, Structural)]
pub enum WaystoneError {
    BuildingDoesNotExist,
    DestinationNotClaimed,
    NotAWaystone,
    OriginNotClaimed,
    WaystoneDoesNotExist,
    TooFarAway,
}

impl WaystoneError {
    /// The message shown to the player.
    pub fn message(&self) -> (r: String)
        ensures
            r@ == match self {
                WaystoneError::BuildingDoesNotExist => "Building does not exist."@,
                WaystoneError::DestinationNotClaimed => "Destination waystone is not claimed"@,
                WaystoneError::NotAWaystone => "Building is not a charter stone."@,
                WaystoneError::OriginNotClaimed => "This waystone is not claimed"@,
                WaystoneError::WaystoneDoesNotExist => "Charter stone does not exist."@,
                WaystoneError::TooFarAway => "Too far away"@,
            },
    {
        match self {
            WaystoneError::BuildingDoesNotExist => String::from_str("Building does not exist."),
            WaystoneError::DestinationNotClaimed => String::from_str("Destination waystone is not claimed"),
            WaystoneError::NotAWaystone => String::from_str("Building is not a charter stone."),
            WaystoneError::OriginNotClaimed => String::from_str("This waystone is not claimed"),
            WaystoneError::WaystoneDoesNotExist => String::from_str("Charter stone does not exist."),
            WaystoneError::TooFarAway => String::from_str("Too far away"),
        }
    }
}

/// The first check a waystone teleport fails, if any: the destination
/// exists, is claimed and is a waystone; so is the origin, which the player
/// stands within reach of (or on its claim); and the destination has a
/// location.
pub open spec fn waystone_verdict(
    destination: Option<WaystoneBuilding>,
    origin: Option<WaystoneBuilding>,
    player_distance_to_origin: i32,
    player_claim: Option<u64>,
) -> Option<WaystoneError> {
    match destination {
        None => Some(WaystoneError::BuildingDoesNotExist),
        Some(to) => if to.claim_entity_id == 0 {
            Some(WaystoneError::DestinationNotClaimed)
        } else if !to.described {
            Some(WaystoneError::BuildingDoesNotExist)
        } else if !to.is_waystone {
            Some(WaystoneError::NotAWaystone)
        } else {
            match origin {
                None => Some(WaystoneError::BuildingDoesNotExist),
                Some(from) => if from.claim_entity_id == 0 {
                    Some(WaystoneError::OriginNotClaimed)
                } else if !from.described {
                    Some(WaystoneError::BuildingDoesNotExist)
                } else if !from.is_waystone {
                    Some(WaystoneError::NotAWaystone)
                } else if !from.located {
                    Some(WaystoneError::WaystoneDoesNotExist)
                } else if player_distance_to_origin > WAYSTONE_REACH && player_claim != Some(from.claim_entity_id) {
                    Some(WaystoneError::TooFarAway)
                } else if !to.located {
                    Some(WaystoneError::WaystoneDoesNotExist)
                } else {
                    None
                },
            }
        },
    }
}

/// A teleport passes the checks only between two claimed, described and
/// located waystones, with the player within reach of the origin or on its
/// claim; a destination that exists, is claimed and described but is no
/// waystone is refused as not a waystone.
pub proof fn law_teleport_only_between_waystones(
    destination: Option<WaystoneBuilding>,
    origin: Option<WaystoneBuilding>,
    player_distance_to_origin: i32,
    player_claim: Option<u64>,
)
    ensures
        waystone_verdict(destination, origin, player_distance_to_origin, player_claim) is None ==> {
            &&& (destination matches Some(to) && to.claim_entity_id != 0 && to.described && to.is_waystone && to.located)
            &&& (origin matches Some(from) && from.claim_entity_id != 0 && from.described && from.is_waystone && from.located
                && (player_distance_to_origin <= WAYSTONE_REACH || player_claim == Some(from.claim_entity_id)))
        },
        (destination matches Some(to) && to.claim_entity_id != 0 && to.described && !to.is_waystone) ==> waystone_verdict(
            destination,
            origin,
            player_distance_to_origin,
            player_claim,
        ) == Some(WaystoneError::NotAWaystone),
{
}

/// Checks a teleport from the `origin` waystone to the `destination`
/// one; `player_claim` is the claim of the tile the player stands on.
pub fn validate_waystone_teleport(
    destination: Option<WaystoneBuilding>,
    origin: Option<WaystoneBuilding>,
    player_distance_to_origin: i32,
    player_claim: Option<u64>,
) -> (r: Result<(), WaystoneError>)
    ensures
        match waystone_verdict(destination, origin, player_distance_to_origin, player_claim) {
            Some(e) => r == Err::<(), WaystoneError>(e),
            None => r is Ok,
        },
        r is Ok ==> (destination matches Some(to) && to.claim_entity_id != 0 && to.described && to.is_waystone && to.located),
        r is Ok ==> (origin matches Some(from) && from.claim_entity_id != 0 && from.described && from.is_waystone && from.located
            && (player_distance_to_origin <= WAYSTONE_REACH || player_claim == Some(from.claim_entity_id))),
        (destination matches Some(to) && to.claim_entity_id != 0 && to.described && !to.is_waystone) ==> r
            == Err::<(), WaystoneError>(WaystoneError::NotAWaystone),
{
    let to = match destination {
        Some(b) => b,
        None => {
            return Err(WaystoneError::BuildingDoesNotExist);
        },
    };
    if to.claim_entity_id == 0 {
        return Err(WaystoneError::DestinationNotClaimed);
    }
    if !to.described {
        return Err(WaystoneError::BuildingDoesNotExist);
    }
    if !to.is_waystone {
        return Err(WaystoneError::NotAWaystone);
    }
    let from = match origin {
        Some(b) => b,
        None => {
            return Err(WaystoneError::BuildingDoesNotExist);
        },
    };
    if from.claim_entity_id == 0 {
        return Err(WaystoneError::OriginNotClaimed);
    }
    if !from.described {
        return Err(WaystoneError::BuildingDoesNotExist);
    }
    if !from.is_waystone {
        return Err(WaystoneError::NotAWaystone);
    }
    if !from.located {
        return Err(WaystoneError::WaystoneDoesNotExist);
    }
    if player_distance_to_origin > WAYSTONE_REACH {
        let on_claim = match player_claim {
            Some(c) => c == from.claim_entity_id,
            None => false,
        };
        if !on_claim {
            return Err(WaystoneError::TooFarAway);
        }
    }
    if !to.located {
        return Err(WaystoneError::WaystoneDoesNotExist);
    }
    Ok(())
}

} // verus!
