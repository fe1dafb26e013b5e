//! Whether a project site may be placed: the checks a footprint must pass,
//! tile by tile, in the order they are made, with the first failure as
//! the answer.
use vstd::prelude::*;
use crate::resources::FootprintType;

verus! {

/// Why a project site cannot be placed there.
#[derive(Clone, Copy, Debug, PartialEq, Eq, Structural)]
pub enum PlacementError {
    TooFar,
    InvalidLocation,
    OutsideOwnClaim,
    OnTopOfBuilding,
    OnTopOfResource,
    RequiresPaving,
    RequiresPavingTier { tier: i32 },
    InvalidFootprint,
    OutsideInterior,
    UnevenCorner,
    UnevenSurface,
    OverWater,
    OnTopOfEnemy,
    OnTopOfDeployable,
    NotNextToBuilding,
}

/// The character of decimal digit `d`.
pub open spec fn digit_char(d: nat) -> char {
    if d == 0 { '0' } else if d == 1 { '1' } else if d == 2 { '2' } else if d == 3 { '3' } else if d == 4 { '4' }
    else if d == 5 { '5' } else if d == 6 { '6' } else if d == 7 { '7' } else if d == 8 { '8' } else { '9' }
}

/// `n` written in decimal, most significant digit first.
pub open spec fn decimal(n: nat) -> Seq<char>
    decreases n,
{
    if n < 10 {
        seq![digit_char(n)]
    } else {
        decimal(n / 10).push(digit_char(n % 10))
    }
}

/// `x` written in decimal, with a minus sign when it is negative.
pub open spec fn signed_decimal(x: int) -> Seq<char> {
    if x < 0 {
        seq!['-'] + decimal((-x) as nat)
    } else {
        decimal(x as nat)
    }
}

/// The one-character text of decimal digit `d`.
fn digit_text(d: u32) -> (r: &'static str)
    requires
        d < 10,
    ensures
        r@ == seq![digit_char(d as nat)],
{
    proof {
        reveal_strlit("0");
        reveal_strlit("1");
        reveal_strlit("2");
        reveal_strlit("3");
        reveal_strlit("4");
        reveal_strlit("5");
        reveal_strlit("6");
        reveal_strlit("7");
        reveal_strlit("8");
        reveal_strlit("9");
    }
    match d {
        0 => "0",
        1 => "1",
        2 => "2",
        3 => "3",
        4 => "4",
        5 => "5",
        6 => "6",
        7 => "7",
        8 => "8",
        _ => "9",
    }
}

/// Appends `n`, in decimal, to `text`.
fn append_decimal(text: &mut String, n: u32)
    ensures
        final(text)@ == old(text)@ + decimal(n as nat),
    decreases n,
{
    if n >= 10 {
        append_decimal(text, n / 10);
    }
    text.append(digit_text(n % 10));
    assert(final(text)@ =~= old(text)@ + decimal(n as nat));
}

impl PlacementError {
    /// The message shown to the player; a paving tier is given after the
    /// `|~` separator, for the `{0}` of the text.
    pub fn message(&self) -> (r: String)
        ensures
            r@ == match self {
                PlacementError::TooFar => "Too far"@,
                PlacementError::InvalidLocation => "Invalid location"@,
                PlacementError::OutsideOwnClaim => "Can only move a building within its own claim."@,
                PlacementError::OnTopOfBuilding => "Can't build on top of another building"@,
                PlacementError::OnTopOfResource => "Can't build on top of this resource."@,
                PlacementError::RequiresPaving => "This building requires paving!"@,
                PlacementError::InvalidFootprint => "Invalid footprint."@,
                PlacementError::OutsideInterior => "Can't build outside interior"@,
                PlacementError::UnevenCorner => "Can only build on a flat surface."@,
                PlacementError::UnevenSurface => "Can only build on a flat surface"@,
                PlacementError::OverWater => "Can't build over water."@,
                PlacementError::OnTopOfEnemy => "Can't build on top of an enemy"@,
                PlacementError::OnTopOfDeployable => "Can't build on top of a deployable"@,
                PlacementError::NotNextToBuilding => "Need to be next to a building to build it."@,
                PlacementError::RequiresPavingTier { tier } => "This building requires tier {0} paving!|~"@ + signed_decimal(*tier as int),
            },
    {
        match self {
            PlacementError::TooFar => String::from_str("Too far"),
            PlacementError::InvalidLocation => String::from_str("Invalid location"),
            PlacementError::OutsideOwnClaim => String::from_str("Can only move a building within its own claim."),
            PlacementError::OnTopOfBuilding => String::from_str("Can't build on top of another building"),
            PlacementError::OnTopOfResource => String::from_str("Can't build on top of this resource."),
            PlacementError::RequiresPaving => String::from_str("This building requires paving!"),
            PlacementError::InvalidFootprint => String::from_str("Invalid footprint."),
            PlacementError::OutsideInterior => String::from_str("Can't build outside interior"),
            PlacementError::UnevenCorner => String::from_str("Can only build on a flat surface."),
            PlacementError::UnevenSurface => String::from_str("Can only build on a flat surface"),
            PlacementError::OverWater => String::from_str("Can't build over water."),
            PlacementError::OnTopOfEnemy => String::from_str("Can't build on top of an enemy"),
            PlacementError::OnTopOfDeployable => String::from_str("Can't build on top of a deployable"),
            PlacementError::NotNextToBuilding => String::from_str("Need to be next to a building to build it."),
            PlacementError::RequiresPavingTier { tier } => {
                let mut text = String::from_str("This building requires tier {0} paving!|~");
                if *tier < 0 {
                    text.append("-");
                    proof {
                        reveal_strlit("-");
                    }
                    let magnitude: u32 = (-(*tier as i64)) as u32;
                    append_decimal(&mut text, magnitude);
                } else {
                    append_decimal(&mut text, *tier as u32);
                }
                proof {
                    assert(text@ =~= "This building requires tier {0} paving!|~"@ + signed_decimal(*tier as int));
                }
                text
            },
        }
    }
}

/// Something already standing on a tile of the footprint.
#[derive(Clone, Copy, Debug, PartialEq, Eq, Structural)]
pub struct ExistingFootprint {
    /// It belongs to a resource.
    pub is_resource: bool,
    /// Its footprint type may share the tile with the new one.
    pub compatible: bool,
    /// It belongs to the building being moved, which is ignored.
    pub ignored: bool,
    /// The resource it belongs to may be flattened by building over it.
    pub flattenable: bool,
}

/// What is known of one tile of the footprint.
#[derive(Debug)]
pub struct PlacementTile {
    pub footprint_type: FootprintType,
    pub existing: Vec<ExistingFootprint>,
    /// Tier of the paving on the tile, if paved.
    pub paving_tier: Option<i32>,
    /// Elevation of the tile's terrain cell, if the cell exists.
    pub terrain_elevation: Option<i32>,
    pub interior_walkable: bool,
    pub is_corner: bool,
    pub flat_corner: bool,
    pub submerged: bool,
    pub enemy_on_tile: bool,
    /// The player stands within reach of the tile.
    pub player_adjacent: bool,
    pub deployable_on_tile: bool,
}

/// What is known of the placement as a whole.
#[derive(Clone, Copy, Debug, PartialEq, Eq, Structural)]
pub struct PlacementRequest {
    /// The player is farther than the build range (never when the player's
    /// position is ignored).
    pub too_far: bool,
    /// Elevation of the center's terrain cell, if the cell exists.
    pub main_elevation: Option<i32>,
    /// A building moved within a claim would leave it.
    pub leaves_claim: bool,
    /// Paving tier the building requires; negative when it needs none.
    pub required_paving: i32,
    pub player_must_be_neighbor: bool,
    pub ignore_player_placement: bool,
}

/// The first of the first `n` things standing on a tile that forbids
/// building there.
pub open spec fn existing_verdict(fs: Seq<ExistingFootprint>, n: int) -> Option<PlacementError>
    decreases n,
{
    if n <= 0 {
        None
    } else {
        match existing_verdict(fs, n - 1) {
            Some(e) => Some(e),
            None => {
                let f = fs[n - 1];
                if !f.is_resource && !f.compatible && !f.ignored {
                    Some(PlacementError::OnTopOfBuilding)
                } else if f.is_resource && !f.flattenable {
                    Some(PlacementError::OnTopOfResource)
                } else {
                    None
                }
            },
        }
    }
}

/// The first check one tile fails, if any.
pub open spec fn tile_verdict(req: PlacementRequest, t: PlacementTile) -> Option<PlacementError> {
    let inner = t.footprint_type != FootprintType::Perimeter;
    let paved = match t.paving_tier {
        Some(tier) => tier >= req.required_paving,
        None => false,
    };
    match existing_verdict(t.existing@, t.existing@.len() as int) {
        Some(e) => Some(e),
        None => if req.required_paving >= 0 && inner && !paved {
            if req.required_paving == 0 {
                Some(PlacementError::RequiresPaving)
            } else {
                Some(PlacementError::RequiresPavingTier { tier: req.required_paving })
            }
        } else if t.terrain_elevation is None {
            Some(PlacementError::InvalidFootprint)
        } else if inner && !t.interior_walkable {
            Some(PlacementError::OutsideInterior)
        } else if inner && t.is_corner && !t.flat_corner {
            Some(PlacementError::UnevenCorner)
        } else if inner && Some(t.terrain_elevation->0) != req.main_elevation {
            Some(PlacementError::UnevenSurface)
        } else if inner && t.submerged {
            Some(PlacementError::OverWater)
        } else if t.enemy_on_tile {
            Some(PlacementError::OnTopOfEnemy)
        } else if t.deployable_on_tile {
            Some(PlacementError::OnTopOfDeployable)
        } else {
            None
        },
    }
}

/// The first check the first `n` tiles fail, tile after tile.
pub open spec fn tiles_verdict(req: PlacementRequest, tiles: Seq<PlacementTile>, n: int) -> Option<PlacementError>
    decreases n,
{
    if n <= 0 {
        None
    } else {
        match tiles_verdict(req, tiles, n - 1) {
            Some(e) => Some(e),
            None => tile_verdict(req, tiles[n - 1]),
        }
    }
}

/// Whether the player stands next to some tile.
pub open spec fn next_to_some(tiles: Seq<PlacementTile>) -> bool {
    exists|i: int| 0 <= i < tiles.len() && (#[trigger] tiles[i]).player_adjacent
}

/// The answer to a placement: the first failed check, if any.
pub open spec fn placement_verdict(req: PlacementRequest, tiles: Seq<PlacementTile>) -> Option<PlacementError> {
    if req.too_far && !req.ignore_player_placement {
        Some(PlacementError::TooFar)
    } else if req.main_elevation is None {
        Some(PlacementError::InvalidLocation)
    } else if req.leaves_claim {
        Some(PlacementError::OutsideOwnClaim)
    } else {
        match tiles_verdict(req, tiles, tiles.len() as int) {
            Some(e) => Some(e),
            None => if !req.ignore_player_placement && req.player_must_be_neighbor && !next_to_some(tiles) {
                Some(PlacementError::NotNextToBuilding)
            } else {
                None
            },
        }
    }
}

/// Nothing standing on the tile forbids building: no building that cannot
/// share the tile (other than the one being moved), and no resource that
/// cannot be flattened.
pub open spec fn nothing_in_the_way(fs: Seq<ExistingFootprint>) -> bool {
    forall|k: int| 0 <= k < fs.len() ==> {
        &&& !(!(#[trigger] fs[k]).is_resource && !fs[k].compatible && !fs[k].ignored)
        &&& !(fs[k].is_resource && !fs[k].flattenable)
    }
}

/// A tile that may be built on: nothing in the way; paved to the required
/// tier where paving is required (perimeter tiles excepted); on an existing
/// terrain cell; and, for the tiles the building stands on, inside the
/// interior, on a flat corner, level with the center and not under water;
/// with no enemy and no deployable on it.
pub open spec fn buildable(req: PlacementRequest, t: PlacementTile) -> bool {
    let inner = t.footprint_type != FootprintType::Perimeter;
    &&& nothing_in_the_way(t.existing@)
    &&& (req.required_paving >= 0 && inner ==> (t.paving_tier matches Some(tier) && tier >= req.required_paving))
    &&& t.terrain_elevation is Some
    &&& (inner ==> t.interior_walkable)
    &&& (inner && t.is_corner ==> t.flat_corner)
    &&& (inner ==> t.terrain_elevation == req.main_elevation)
    &&& (inner ==> !t.submerged)
    &&& !t.enemy_on_tile
    &&& !t.deployable_on_tile
}

proof fn lemma_existing_clear(fs: Seq<ExistingFootprint>, n: int)
    requires
        0 <= n <= fs.len(),
    ensures
        existing_verdict(fs, n) is None <==> forall|k: int| 0 <= k < n ==> {
            &&& !(!(#[trigger] fs[k]).is_resource && !fs[k].compatible && !fs[k].ignored)
            &&& !(fs[k].is_resource && !fs[k].flattenable)
        },
    decreases n,
{
    if n > 0 {
        lemma_existing_clear(fs, n - 1);
    }
}

proof fn lemma_tiles_clear(req: PlacementRequest, tiles: Seq<PlacementTile>, n: int)
    requires
        0 <= n <= tiles.len(),
    ensures
        tiles_verdict(req, tiles, n) is None <==> forall|i: int| 0 <= i < n ==> buildable(req, #[trigger] tiles[i]),
    decreases n,
{
    if n > 0 {
        lemma_tiles_clear(req, tiles, n - 1);
        let t = tiles[n - 1];
        lemma_existing_clear(t.existing@, t.existing@.len() as int);
    }
}

/// A placement is accepted exactly when the player is within range (or
/// need not be), the center lies on terrain, a moved building stays within
/// its claim, every tile may be built on, and the player stands next to
/// the footprint when that is asked.
pub proof fn law_placement_accepted_exactly_when_buildable(req: PlacementRequest, tiles: Seq<PlacementTile>)
    ensures
        placement_verdict(req, tiles) is None <==> {
            &&& !(req.too_far && !req.ignore_player_placement)
            &&& req.main_elevation is Some
            &&& !req.leaves_claim
            &&& forall|i: int| 0 <= i < tiles.len() ==> buildable(req, #[trigger] tiles[i])
            &&& (!req.ignore_player_placement && req.player_must_be_neighbor ==> exists|i: int|
                0 <= i < tiles.len() && (#[trigger] tiles[i]).player_adjacent)
        },
{
    lemma_tiles_clear(req, tiles, tiles.len() as int);
}

fn check_existing(fs: &Vec<ExistingFootprint>) -> (r: Option<PlacementError>)
    ensures
        r == existing_verdict(fs@, fs@.len() as int),
{
    let n = fs.len();
    let mut i: usize = 0;
    while i < n
        invariant
            i <= n,
            n == fs@.len(),
            existing_verdict(fs@, i as int) is None,
        decreases n - i,
    {
        let f = fs[i];
        if !f.is_resource && !f.compatible && !f.ignored {
            proof {
                lemma_existing_settled(fs@, i + 1, n as int);
            }
            return Some(PlacementError::OnTopOfBuilding);
        }
        if f.is_resource && !f.flattenable {
            proof {
                lemma_existing_settled(fs@, i + 1, n as int);
            }
            return Some(PlacementError::OnTopOfResource);
        }
        i = i + 1;
    }
    None
}

proof fn lemma_existing_settled(fs: Seq<ExistingFootprint>, i: int, n: int)
    requires
        0 <= i <= n,
        existing_verdict(fs, i) is Some,
    ensures
        existing_verdict(fs, n) == existing_verdict(fs, i),
    decreases n - i,
{
    if n > i {
        lemma_existing_settled(fs, i, n - 1);
    }
}

proof fn lemma_tiles_settled(req: PlacementRequest, tiles: Seq<PlacementTile>, i: int, n: int)
    requires
        0 <= i <= n,
        tiles_verdict(req, tiles, i) is Some,
    ensures
        tiles_verdict(req, tiles, n) == tiles_verdict(req, tiles, i),
    decreases n - i,
{
    if n > i {
        lemma_tiles_settled(req, tiles, i, n - 1);
    }
}

fn check_tile(req: PlacementRequest, t: &PlacementTile) -> (r: Option<PlacementError>)
    ensures
        r == tile_verdict(req, *t),
{
    match check_existing(&t.existing) {
        Some(e) => {
            return Some(e);
        },
        None => {},
    }
    let inner = t.footprint_type != FootprintType::Perimeter;
    if req.required_paving >= 0 && inner {
        let valid = match t.paving_tier {
            Some(tier) => tier >= req.required_paving,
            None => false,
        };
        if !valid {
            if req.required_paving == 0 {
                return Some(PlacementError::RequiresPaving);
            } else {
                return Some(PlacementError::RequiresPavingTier { tier: req.required_paving });
            }
        }
    }
    let elevation = match t.terrain_elevation {
        Some(e) => e,
        None => {
            return Some(PlacementError::InvalidFootprint);
        },
    };
    if inner {
        if !t.interior_walkable {
            return Some(PlacementError::OutsideInterior);
        }
        if t.is_corner && !t.flat_corner {
            return Some(PlacementError::UnevenCorner);
        }
        let same = match req.main_elevation {
            Some(m) => m == elevation,
            None => false,
        };
        if !same {
            return Some(PlacementError::UnevenSurface);
        }
        if t.submerged {
            return Some(PlacementError::OverWater);
        }
    }
    if t.enemy_on_tile {
        return Some(PlacementError::OnTopOfEnemy);
    }
    if t.deployable_on_tile {
        return Some(PlacementError::OnTopOfDeployable);
    }
    None
}

/// Checks a project site's placement: the player within build range, the
/// center on existing terrain, a moved building kept in its claim, then
/// every tile of the footprint in order (what stands on it, paving,
/// terrain, interior, flatness, water, enemies, deployables), and last the
/// player next to the site when that is required. The first failed check
/// is the error.
pub fn validate_placement(req: PlacementRequest, tiles: &Vec<PlacementTile>) -> (r: Result<(), PlacementError>)
    ensures
        match placement_verdict(req, tiles@) {
            Some(e) => r == Err::<(), PlacementError>(e),
            None => r is Ok,
        },
{
    if !req.ignore_player_placement && req.too_far {
        return Err(PlacementError::TooFar);
    }
    if req.main_elevation.is_none() {
        return Err(PlacementError::InvalidLocation);
    }
    if req.leaves_claim {
        return Err(PlacementError::OutsideOwnClaim);
    }
    let mut player_is_neighbor = false;
    let n = tiles.len();
    let mut i: usize = 0;
    while i < n
        invariant
            i <= n,
            n == tiles@.len(),
            tiles_verdict(req, tiles@, i as int) is None,
            !(req.too_far && !req.ignore_player_placement),
            req.main_elevation is Some,
            !req.leaves_claim,
            !req.ignore_player_placement ==> player_is_neighbor == exists|k: int| 0 <= k < i && (#[trigger] tiles@[k]).player_adjacent,
        decreases n - i,
    {
        match check_tile(req, &tiles[i]) {
            Some(e) => {
                proof {
                    lemma_tiles_settled(req, tiles@, i + 1, n as int);
                }
                return Err(e);
            },
            None => {},
        }
        if !req.ignore_player_placement && tiles[i].player_adjacent {
            player_is_neighbor = true;
        }
        i = i + 1;
    }
    if !req.ignore_player_placement && req.player_must_be_neighbor && !player_is_neighbor {
        return Err(PlacementError::NotNextToBuilding);
    }
    Ok(())
}

} // verus!
