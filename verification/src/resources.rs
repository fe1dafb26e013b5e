//! Respawning resources: the tiles a resource clump occupies, which tiles
//! are taken, and the bookkeeping of how many of each resource the world
//! still misses.
use vstd::prelude::*;
use std::collections::{HashMap, HashSet};

verus! {

broadcast use vstd::std_specs::hash::group_hash_axioms;

/// What a tile of a footprint is to the things around it.
#[derive(Clone, Copy, Debug, PartialEq, Eq, Structural)]
pub enum FootprintType {
    Hitbox,
    Walkable,
    Perimeter,
    WalkableResource,
}

/// One tile of a footprint, relative to the thing's center.
#[derive(Clone, Copy, Debug, PartialEq, Eq, Structural)]
pub struct FootprintTile {
    pub x: i32,
    pub z: i32,
    pub footprint_type: FootprintType,
}

/// The parts of a resource's description that spawning reads.
#[derive(Debug)]
pub struct ResourceDesc {
    pub id: i32,
    pub footprint: Vec<FootprintTile>,
    pub spawn_priority: i32,
    pub max_health: i32,
    pub not_respawning: bool,
}

impl Clone for ResourceDesc {
    fn clone(&self) -> (r: Self)
        ensures
            r.id == self.id,
            r.footprint@ == self.footprint@,
            r.spawn_priority == self.spawn_priority,
            r.max_health == self.max_health,
            r.not_respawning == self.not_respawning,
    {
        let footprint = self.footprint.clone();
        assert(footprint@ =~= self.footprint@);
        ResourceDesc {
            id: self.id,
            footprint,
            spawn_priority: self.spawn_priority,
            max_health: self.max_health,
            not_respawning: self.not_respawning,
        }
    }
}

/// A clump of resources spawned together: resource `i` is
/// `resource_id[i]`, at offset (`x[i]`, `z[i]`) facing `direction[i]`.
#[derive(Debug)]
pub struct ResourceClumpDesc {
    pub id: i32,
    pub resource_id: Vec<i32>,
    pub x: Vec<i32>,
    pub z: Vec<i32>,
    pub direction: Vec<i32>,
}

/// A clump with what spawning needs of it worked out: the descriptions of
/// its resources, the tiles it takes, its priority and whether it fits in
/// a single tile.
#[derive(Debug)]
pub struct ResourceClumpDescExtended {
    pub clump: ResourceClumpDesc,
    pub resource_desc: Vec<ResourceDesc>,
    pub footprints: Vec<FootprintTile>,
    pub spawn_priority: i32,
    pub is_single_tile: bool,
}

/// The tiles one resource of a clump takes, placed at (`x`, `z`): its own
/// footprint shifted there, or a single hitbox tile when it has none.
pub open spec fn placed_footprint(footprint: Seq<FootprintTile>, x: i32, z: i32) -> Seq<FootprintTile> {
    if footprint.len() == 0 {
        seq![FootprintTile { x, z, footprint_type: FootprintType::Hitbox }]
    } else {
        footprint.map_values(|d: FootprintTile| FootprintTile { x: (d.x + x) as i32, z: (d.z + z) as i32, ..d })
    }
}

/// The tiles the first `n` resources of a clump take, in order.
pub open spec fn clump_tiles(descs: Seq<ResourceDesc>, xs: Seq<i32>, zs: Seq<i32>, n: int) -> Seq<FootprintTile>
    decreases n,
{
    if n <= 0 {
        Seq::empty()
    } else {
        clump_tiles(descs, xs, zs, n - 1) + placed_footprint(descs[n - 1].footprint@, xs[n - 1], zs[n - 1])
    }
}

/// The tiles of a footprint that are not its perimeter, in order.
pub open spec fn without_perimeter(tiles: Seq<FootprintTile>) -> Seq<FootprintTile>
    decreases tiles.len(),
{
    if tiles.len() == 0 {
        tiles
    } else {
        let rest = without_perimeter(tiles.drop_last());
        if tiles.last().footprint_type != FootprintType::Perimeter {
            rest.push(tiles.last())
        } else {
            rest
        }
    }
}

/// Whether a clump's tiles (perimeter included) are at most its center.
pub open spec fn single_tile(tiles: Seq<FootprintTile>) -> bool {
    tiles.len() == 0 || (tiles.len() == 1 && tiles[0].x == 0 && tiles[0].z == 0)
}

/// The highest spawn priority among the first `n` descriptions.
pub open spec fn max_priority(descs: Seq<ResourceDesc>, n: int) -> int
    decreases n,
{
    if n <= 1 {
        descs[0].spawn_priority as int
    } else {
        let m = max_priority(descs, n - 1);
        if descs[n - 1].spawn_priority > m { descs[n - 1].spawn_priority as int } else { m }
    }
}

/// Shifting footprint tiles by the clump offsets stays within `i32`.
pub open spec fn offsets_fit(descs: Seq<ResourceDesc>, xs: Seq<i32>, zs: Seq<i32>) -> bool {
    forall|i: int, j: int| 0 <= i < descs.len() && 0 <= j < descs[i].footprint@.len() ==> {
        &&& i32::MIN <= (#[trigger] descs[i].footprint@[j]).x + xs[i] <= i32::MAX
        &&& i32::MIN <= descs[i].footprint@[j].z + zs[i] <= i32::MAX
    }
}

/// The descriptions of a clump's resources, looked up by id.
pub open spec fn clump_descs(ids: Seq<i32>, cache: Map<i32, ResourceDesc>) -> Seq<ResourceDesc> {
    ids.map_values(|id: i32| cache[id])
}

/// Same description, as far as spawning reads it.
pub open spec fn same_desc(a: ResourceDesc, b: ResourceDesc) -> bool {
    &&& a.id == b.id
    &&& a.footprint@ == b.footprint@
    &&& a.spawn_priority == b.spawn_priority
    &&& a.max_health == b.max_health
    &&& a.not_respawning == b.not_respawning
}

impl ResourceClumpDescExtended {
    /// Works out a clump: the descriptions of its resources (from
    /// `resource_desc_cache`, by id), the highest of their spawn priorities,
    /// the tiles the clump takes without their perimeter, and whether it
    /// fits in a single tile (perimeter included).
    pub fn new(clump: ResourceClumpDesc, resource_desc_cache: &HashMap<i32, ResourceDesc>) -> (r: Self)
        requires
            clump.resource_id@.len() > 0,
            clump.x@.len() >= clump.resource_id@.len(),
            clump.z@.len() >= clump.resource_id@.len(),
            forall|i: int| 0 <= i < clump.resource_id@.len() ==> resource_desc_cache@.contains_key(
                #[trigger] clump.resource_id@[i],
            ),
            offsets_fit(clump_descs(clump.resource_id@, resource_desc_cache@), clump.x@, clump.z@),
        ensures
            ({
                let descs = clump_descs(clump.resource_id@, resource_desc_cache@);
                let n = clump.resource_id@.len() as int;
                let tiles = clump_tiles(descs, clump.x@, clump.z@, n);
                &&& r.resource_desc@.len() == n
                &&& forall|i: int| 0 <= i < n ==> same_desc(#[trigger] r.resource_desc@[i], descs[i])
                &&& r.spawn_priority == max_priority(descs, n)
                &&& r.footprints@ == without_perimeter(tiles)
                &&& r.is_single_tile == single_tile(tiles)
                &&& r.clump == clump
            }),
    {
        let ghost descs = clump_descs(clump.resource_id@, resource_desc_cache@);
        let n = clump.resource_id.len();
        let mut resource_desc: Vec<ResourceDesc> = Vec::new();
        for i in 0..n
            invariant
                n == clump.resource_id@.len(),
                descs == clump_descs(clump.resource_id@, resource_desc_cache@),
                forall|k: int| 0 <= k < n ==> resource_desc_cache@.contains_key(#[trigger] clump.resource_id@[k]),
                resource_desc@.len() == i,
                forall|k: int| 0 <= k < i ==> same_desc(#[trigger] resource_desc@[k], descs[k]),
        {
            let id = clump.resource_id[i];
            assert(resource_desc_cache@.contains_key(clump.resource_id@[i as int]));
            match resource_desc_cache.get(&id) {
                Some(d) => {
                    resource_desc.push(d.clone());
                },
                None => {
                    assert(false);
                },
            }
        }
        let mut spawn_priority: i32 = resource_desc[0].spawn_priority;
        for i in 1..n
            invariant
                n == clump.resource_id@.len() == resource_desc@.len(),
                forall|k: int| 0 <= k < n ==> same_desc(#[trigger] resource_desc@[k], descs[k]),
                spawn_priority == max_priority(descs, i as int),
        {
            if resource_desc[i].spawn_priority > spawn_priority {
                spawn_priority = resource_desc[i].spawn_priority;
            }
        }
        let mut tiles: Vec<FootprintTile> = Vec::new();
        for i in 0..n
            invariant
                n == clump.resource_id@.len() == resource_desc@.len(),
                clump.x@.len() >= n,
                clump.z@.len() >= n,
                forall|k: int| 0 <= k < n ==> same_desc(#[trigger] resource_desc@[k], descs[k]),
                offsets_fit(descs, clump.x@, clump.z@),
                descs.len() == n,
                tiles@ == clump_tiles(descs, clump.x@, clump.z@, i as int),
        {
            let x = clump.x[i];
            let z = clump.z[i];
            let fp = &resource_desc[i].footprint;
            let ghost before = tiles@;
            if fp.len() == 0 {
                tiles.push(FootprintTile { x, z, footprint_type: FootprintType::Hitbox });
                assert(tiles@ =~= before + placed_footprint(descs[i as int].footprint@, x, z));
            } else {
                let m = fp.len();
                for j in 0..m
                    invariant
                        m == fp@.len(),
                        fp@ == descs[i as int].footprint@,
                        0 <= i < descs.len(),
                        x == clump.x@[i as int],
                        z == clump.z@[i as int],
                        offsets_fit(descs, clump.x@, clump.z@),
                        tiles@ == before + placed_footprint(fp@, x, z).subrange(0, j as int),
                {
                    let d = fp[j];
                    assert(i32::MIN <= descs[i as int].footprint@[j as int].x + clump.x@[i as int] <= i32::MAX);
                    tiles.push(FootprintTile { x: d.x + x, z: d.z + z, footprint_type: d.footprint_type });
                    assert(tiles@ =~= before + placed_footprint(fp@, x, z).subrange(0, j + 1));
                }
                assert(placed_footprint(fp@, x, z).subrange(0, m as int) =~= placed_footprint(fp@, x, z));
            }
        }
        let is_single_tile = tiles.len() == 0 || (tiles.len() == 1 && tiles[0].x == 0 && tiles[0].z == 0);
        let ghost all = tiles@;
        let mut footprints: Vec<FootprintTile> = Vec::new();
        let t = tiles.len();
        for i in 0..t
            invariant
                t == tiles@.len(),
                all == tiles@,
                footprints@ == without_perimeter(all.subrange(0, i as int)),
        {
            let tile = tiles[i];
            proof {
                assert(all.subrange(0, i + 1).drop_last() =~= all.subrange(0, i as int));
            }
            if tile.footprint_type != FootprintType::Perimeter {
                footprints.push(tile);
            }
        }
        assert(all.subrange(0, t as int) =~= all);
        ResourceClumpDescExtended { clump, resource_desc, footprints, spawn_priority, is_single_tile }
    }

    /// A clump taken as a single tile with no footprint, for prizes whose
    /// real clump is placed later.
    pub fn place_holder(clump: ResourceClumpDesc) -> (r: Self)
        ensures
            r.clump == clump,
            r.resource_desc@.len() == 0,
            r.footprints@.len() == 0,
            r.spawn_priority == 0,
            r.is_single_tile,
    {
        ResourceClumpDescExtended {
            clump,
            resource_desc: Vec::new(),
            footprints: Vec::new(),
            spawn_priority: 0,
            is_single_tile: true,
        }
    }
}

/// The claimed tiles, all known ahead (by tile hashcode), and the tiles
/// taken since.
pub struct PrecomputeOccupiedTiles {
    occupied: HashSet<i64>,
}

impl View for PrecomputeOccupiedTiles {
    type V = Set<i64>;

    /// The set of occupied tiles.
    closed spec fn view(&self) -> Set<i64> {
        self.occupied@
    }
}

impl PrecomputeOccupiedTiles {
    /// Starts from the given claimed tiles.
    pub fn new(claimed_tile_hashcodes: &Vec<i64>) -> (r: Self)
        ensures
            r.view() == claimed_tile_hashcodes@.to_set(),
    {
        let mut occupied: HashSet<i64> = HashSet::new();
        let n = claimed_tile_hashcodes.len();
        for i in 0..n
            invariant
                n == claimed_tile_hashcodes@.len(),
                occupied@ == claimed_tile_hashcodes@.subrange(0, i as int).to_set(),
        {
            occupied.insert(claimed_tile_hashcodes[i]);
            proof {
                let s = claimed_tile_hashcodes@;
                assert(s.subrange(0, i + 1) =~= s.subrange(0, i as int).push(s[i as int]));
                s.subrange(0, i as int).lemma_push_to_set_commute(s[i as int]);
            }
        }
        assert(claimed_tile_hashcodes@.subrange(0, n as int) =~= claimed_tile_hashcodes@);
        PrecomputeOccupiedTiles { occupied }
    }

    /// No tile occupied.
    pub fn place_holder() -> (r: Self)
        ensures
            r.view() == Set::<i64>::empty(),
    {
        PrecomputeOccupiedTiles { occupied: HashSet::new() }
    }

    /// Whether the tile is occupied.
    pub fn is_tile_occupied(&self, tile_hashcode: i64) -> (r: bool)
        ensures
            r == self.view().contains(tile_hashcode),
    {
        self.occupied.contains(&tile_hashcode)
    }

    /// Marks the tile occupied (a resource was just placed there).
    pub fn mark_tile_occupied(&mut self, tile_hashcode: i64)
        ensures
            final(self).view() == old(self).view().insert(tile_hashcode),
    {
        self.occupied.insert(tile_hashcode);
    }
}

/// Tiles looked up one at a time, each remembered once known: occupied or
/// free. A tile never looked up is unknown.
pub struct LazyMemoOccupiedTiles {
    occupied: HashMap<i64, bool>,
}

impl View for LazyMemoOccupiedTiles {
    type V = Map<i64, bool>;

    /// What is known of each tile looked up so far.
    closed spec fn view(&self) -> Map<i64, bool> {
        self.occupied@
    }
}

impl LazyMemoOccupiedTiles {
    /// Nothing known yet.
    pub fn new() -> (r: Self)
        ensures
            r.view() == Map::<i64, bool>::empty(),
    {
        LazyMemoOccupiedTiles { occupied: HashMap::new() }
    }

    /// What is known of the tile, if it was looked up (or marked) before.
    pub fn known_occupancy(&self, tile_hashcode: i64) -> (r: Option<bool>)
        ensures
            r == (if self.view().contains_key(tile_hashcode) { Some(self.view()[tile_hashcode]) } else { None }),
    {
        match self.occupied.get(&tile_hashcode) {
            Some(b) => Some(*b),
            None => None,
        }
    }

    /// Whether the tile is occupied: what is remembered of it, or else
    /// `looked_up` (what a fresh look at the tile's claims found), which is
    /// then remembered.
    pub fn is_tile_occupied(&mut self, tile_hashcode: i64, looked_up: bool) -> (r: bool)
        ensures
            old(self).view().contains_key(tile_hashcode) ==> r == old(self).view()[tile_hashcode] && final(self).view()
                == old(self).view(),
            !old(self).view().contains_key(tile_hashcode) ==> r == looked_up && final(self).view() == old(
                self,
            ).view().insert(tile_hashcode, looked_up),
    {
        match self.occupied.get(&tile_hashcode) {
            Some(b) => *b,
            None => {
                self.occupied.insert(tile_hashcode, looked_up);
                looked_up
            },
        }
    }

    /// Marks the tile occupied (a resource was just placed there).
    pub fn mark_tile_occupied(&mut self, tile_hashcode: i64)
        ensures
            final(self).view() == old(self).view().insert(tile_hashcode, true),
    {
        self.occupied.insert(tile_hashcode, true);
    }
}

/// How often `id` occurs among the first `n` ids.
pub open spec fn occurrences(ids: Seq<i32>, id: i32, n: int) -> int
    decreases n,
{
    if n <= 0 {
        0
    } else {
        occurrences(ids, id, n - 1) + if ids[n - 1] == id { 1int } else { 0int }
    }
}

/// Whether `id` is listed in the grouping.
pub open spec fn listed(needs: Seq<(i32, usize)>, id: i32) -> bool {
    exists|i: int| 0 <= i < needs.len() && needs[i].0 == id
}

/// Each id appears once in the grouping.
pub open spec fn distinct_ids(needs: Seq<(i32, usize)>) -> bool {
    forall|i: int, j: int| 0 <= i < j < needs.len() ==> needs[i].0 != needs[j].0
}

/// How many of a resource the world misses, when it respawns and falls
/// short of its target; `None` otherwise.
pub fn missing_count(target: i32, resource_count: i32, not_respawning: bool) -> (r: Option<usize>)
    requires
        target - resource_count <= i32::MAX,
    ensures
        r == if !not_respawning && resource_count < target {
            Some((target - resource_count) as usize)
        } else {
            None::<usize>
        },
{
    if !not_respawning && resource_count < target {
        Some((target - resource_count) as usize)
    } else {
        None
    }
}

/// The resources of a clump grouped by id: each id once, with how many
/// times the clump holds it.
pub fn clump_requirements(resource_ids: &Vec<i32>) -> (r: Vec<(i32, usize)>)
    ensures
        distinct_ids(r@),
        forall|i: int| 0 <= i < r@.len() ==> (#[trigger] r@[i]).1 == occurrences(resource_ids@, r@[i].0, resource_ids@.len() as int)
            && r@[i].1 >= 1,
        forall|k: int| 0 <= k < resource_ids@.len() ==> listed(r@, #[trigger] resource_ids@[k]),
{
    let mut r: Vec<(i32, usize)> = Vec::new();
    let n = resource_ids.len();
    let mut k: usize = 0;
    while k < n
        invariant
            k <= n,
            n == resource_ids@.len(),
            distinct_ids(r@),
            forall|i: int| 0 <= i < r@.len() ==> (#[trigger] r@[i]).1 == occurrences(resource_ids@, r@[i].0, k as int) && r@[i].1 >= 1,
            forall|j: int| 0 <= j < k ==> listed(r@, #[trigger] resource_ids@[j]),
            forall|id: i32| !listed(r@, id) ==> #[trigger] occurrences(resource_ids@, id, k as int) == 0,
            r@.len() <= k,
        decreases n - k,
    {
        let id = resource_ids[k];
        let mut found: usize = r.len();
        let m = r.len();
        for i in 0..m
            invariant
                m == r@.len(),
                found == m || (found < m && r@[found as int].0 == id),
                found == m ==> forall|j: int| 0 <= j < i ==> r@[j].0 != id,
        {
            if found == m && r[i].0 == id {
                found = i;
            }
        }
        let ghost before = r@;
        if found < m {
            let (fid, c) = r[found];
            assert(c <= k) by {
                assert(occurrences(resource_ids@, fid, k as int) <= k) by {
                    lemma_occurrences_bound(resource_ids@, fid, k as int);
                }
            }
            r.set(found, (fid, c + 1));
            proof {
                assert forall|i: int| 0 <= i < r@.len() implies (#[trigger] r@[i]).1 == occurrences(resource_ids@, r@[i].0, k + 1)
                    && r@[i].1 >= 1 by {
                    if i != found {
                        assert(r@[i] == before[i]);
                    }
                }
                assert forall|j: int| 0 <= j < k + 1 implies listed(r@, #[trigger] resource_ids@[j]) by {
                    if j == k {
                        assert(r@[found as int].0 == resource_ids@[j]);
                    } else {
                        assert(listed(before, resource_ids@[j]));
                        let i = choose|i: int| 0 <= i < before.len() && before[i].0 == resource_ids@[j];
                        assert(r@[i].0 == before[i].0);
                    }
                }
                assert forall|id2: i32| !listed(r@, id2) implies #[trigger] occurrences(resource_ids@, id2, k + 1) == 0 by {
                    assert(!listed(before, id2)) by {
                        if listed(before, id2) {
                            let i = choose|i: int| 0 <= i < before.len() && before[i].0 == id2;
                            assert(r@[i].0 == id2);
                            assert(listed(r@, id2));
                        }
                    }
                    assert(r@[found as int].0 == id);
                    assert(id2 != id);
                    assert(occurrences(resource_ids@, id2, k as int) == 0);
                    assert(resource_ids@[k as int] == id);
                }
            }
        } else {
            r.push((id, 1));
            proof {
                assert(!listed(before, id));
                assert(occurrences(resource_ids@, id, k as int) == 0);
                assert forall|i: int| 0 <= i < r@.len() implies (#[trigger] r@[i]).1 == occurrences(resource_ids@, r@[i].0, k + 1)
                    && r@[i].1 >= 1 by {
                    if i < before.len() {
                        assert(r@[i] == before[i]);
                    }
                }
                assert forall|j: int| 0 <= j < k + 1 implies listed(r@, #[trigger] resource_ids@[j]) by {
                    if j == k {
                        assert(r@[before.len() as int].0 == resource_ids@[j]);
                    } else {
                        assert(listed(before, resource_ids@[j]));
                        let i = choose|i: int| 0 <= i < before.len() && before[i].0 == resource_ids@[j];
                        assert(r@[i].0 == before[i].0);
                    }
                }
                assert forall|id2: i32| !listed(r@, id2) implies #[trigger] occurrences(resource_ids@, id2, k + 1) == 0 by {
                    assert(!listed(before, id2)) by {
                        if listed(before, id2) {
                            let i = choose|i: int| 0 <= i < before.len() && before[i].0 == id2;
                            assert(r@[i].0 == id2);
                            assert(listed(r@, id2));
                        }
                    }
                    assert(r@[before.len() as int].0 == id);
                    assert(id2 != id);
                    assert(occurrences(resource_ids@, id2, k as int) == 0);
                    assert(resource_ids@[k as int] == id);
                }
            }
        }
        k = k + 1;
    }
    r
}

/// An id occurs at most `n` times among `n` ids.
pub proof fn lemma_occurrences_bound(ids: Seq<i32>, id: i32, n: int)
    requires
        n >= 0,
    ensures
        0 <= occurrences(ids, id, n) <= n,
    decreases n,
{
    if n > 0 {
        lemma_occurrences_bound(ids, id, n - 1);
    }
}

/// Whether a clump can be spawned at all: the world misses every one of
/// its resources.
pub fn clump_can_spawn(resource_ids: &Vec<i32>, missing: &HashMap<i32, usize>) -> (r: bool)
    ensures
        r == forall|k: int| 0 <= k < resource_ids@.len() ==> missing@.contains_key(#[trigger] resource_ids@[k]),
{
    let n = resource_ids.len();
    for k in 0..n
        invariant
            n == resource_ids@.len(),
            forall|j: int| 0 <= j < k ==> missing@.contains_key(#[trigger] resource_ids@[j]),
    {
        if !missing.contains_key(&resource_ids[k]) {
            return false;
        }
    }
    true
}

/// How many whole clumps the first `n` needs allow, starting from
/// `i32::MAX`: the least of the missing count over the count needed.
pub open spec fn spawns_allowed(needs: Seq<(i32, usize)>, missing: Map<i32, usize>, n: int) -> int
    decreases n,
{
    if n <= 0 {
        i32::MAX as int
    } else {
        let m = spawns_allowed(needs, missing, n - 1);
        let c = ((missing[needs[n - 1].0] / needs[n - 1].1) as i32) as int;
        if c < m { c } else { m }
    }
}

/// How many more times a clump can be spawned with what the world misses.
pub fn possible_spawns(needs: &Vec<(i32, usize)>, missing: &HashMap<i32, usize>) -> (r: i32)
    requires
        forall|i: int| 0 <= i < needs@.len() ==> missing@.contains_key((#[trigger] needs@[i]).0) && needs@[i].1 > 0,
    ensures
        r == spawns_allowed(needs@, missing@, needs@.len() as int),
{
    let mut possible: i32 = i32::MAX;
    let n = needs.len();
    for i in 0..n
        invariant
            n == needs@.len(),
            forall|k: int| 0 <= k < needs@.len() ==> missing@.contains_key((#[trigger] needs@[k]).0) && needs@[k].1 > 0,
            possible == spawns_allowed(needs@, missing@, i as int),
    {
        let (id, count) = needs[i];
        assert(missing@.contains_key(needs@[i as int].0));
        let have: usize = match missing.get(&id) {
            Some(v) => *v,
            None => 0,
        };
        let c: i32 = (have / count) as i32;
        if c < possible {
            possible = c;
        }
    }
    possible
}

/// Spawn attempts for a clump in one pass: one, plus one for every ten
/// possible spawns.
pub fn spawn_iterations(possible_spawns: i32) -> (r: i32)
    requires
        possible_spawns > 0,
    ensures
        r == 1 + possible_spawns / 10,
{
    1 + possible_spawns / 10
}

/// What the respawn reads of one resource: its id, the count it respawns
/// up to, how many of it the world holds, and whether it respawns at all.
#[derive(Clone, Copy, Debug, PartialEq, Eq, Structural)]
pub struct ResourceTally {
    pub resource_id: i32,
    pub target: i32,
    pub count: i32,
    pub not_respawning: bool,
}

/// How many of each resource the world misses, over the first `n` tallies:
/// a resource that respawns and falls short of its target misses the
/// difference; a later tally of the same resource replaces an earlier one.
pub open spec fn tallied(entries: Seq<ResourceTally>, n: int) -> Map<i32, usize>
    decreases n,
{
    if n <= 0 {
        Map::empty()
    } else {
        let m = tallied(entries, n - 1);
        let e = entries[n - 1];
        if !e.not_respawning && e.count < e.target {
            m.insert(e.resource_id, (e.target - e.count) as usize)
        } else {
            m
        }
    }
}

/// Tallies what the world misses of each resource.
pub fn tally_missing(entries: &Vec<ResourceTally>) -> (r: HashMap<i32, usize>)
    requires
        forall|i: int| 0 <= i < entries@.len() ==> (#[trigger] entries@[i]).target - entries@[i].count <= i32::MAX,
    ensures
        r@ == tallied(entries@, entries@.len() as int),
{
    let mut r: HashMap<i32, usize> = HashMap::new();
    let n = entries.len();
    for i in 0..n
        invariant
            n == entries@.len(),
            forall|k: int| 0 <= k < entries@.len() ==> (#[trigger] entries@[k]).target - entries@[k].count <= i32::MAX,
            r@ == tallied(entries@, i as int),
    {
        let e = entries[i];
        assert(e.target - e.count <= i32::MAX);
        match missing_count(e.target, e.count, e.not_respawning) {
            Some(c) => {
                r.insert(e.resource_id, c);
            },
            None => {},
        }
    }
    r
}

/// `needs` groups `ids`: each id once, with how many times `ids` holds it.
pub open spec fn grouped(needs: Seq<(i32, usize)>, ids: Seq<i32>) -> bool {
    &&& distinct_ids(needs)
    &&& forall|i: int| 0 <= i < needs.len() ==> (#[trigger] needs[i]).1 == occurrences(ids, needs[i].0, ids.len() as int)
        && needs[i].1 >= 1
    &&& forall|k: int| 0 <= k < ids.len() ==> listed(needs, #[trigger] ids[k])
}

/// The positions, among the first `n` clumps, of those whose every
/// resource the world misses.
pub open spec fn spawnable_positions(clumps: Seq<(i32, Vec<i32>)>, missing: Map<i32, usize>, n: int) -> Seq<int>
    decreases n,
{
    if n <= 0 {
        Seq::empty()
    } else {
        let rest = spawnable_positions(clumps, missing, n - 1);
        if forall|k: int| 0 <= k < clumps[n - 1].1@.len() ==> missing.contains_key(#[trigger] clumps[n - 1].1@[k]) {
            rest.push(n - 1)
        } else {
            rest
        }
    }
}

/// The clumps (id and resource ids) that can respawn at all, in order,
/// each with its resources grouped by id: a clump holding a resource the
/// world does not miss is left out.
pub fn spawnable_clumps(clumps: &Vec<(i32, Vec<i32>)>, missing: &HashMap<i32, usize>) -> (r: Vec<(i32, Vec<(i32, usize)>)>)
    ensures
        ({
            let at = spawnable_positions(clumps@, missing@, clumps@.len() as int);
            &&& r@.len() == at.len()
            &&& forall|k: int| 0 <= k < r@.len() ==> (#[trigger] r@[k]).0 == clumps@[at[k]].0 && grouped(r@[k].1@, clumps@[at[k]].1@)
        }),
{
    let mut r: Vec<(i32, Vec<(i32, usize)>)> = Vec::new();
    let n = clumps.len();
    for i in 0..n
        invariant
            n == clumps@.len(),
            ({
                let at = spawnable_positions(clumps@, missing@, i as int);
                &&& r@.len() == at.len()
                &&& forall|k: int| 0 <= k < r@.len() ==> (#[trigger] r@[k]).0 == clumps@[at[k]].0 && grouped(r@[k].1@, clumps@[at[k]].1@)
            }),
    {
        let ghost before = r@;
        let ghost at = spawnable_positions(clumps@, missing@, i as int);
        let ghost at2 = spawnable_positions(clumps@, missing@, i + 1);
        let ids = &clumps[i].1;
        assert(ids@ == clumps@[i as int].1@);
        let can = clump_can_spawn(ids, missing);
        if can {
            let needs = clump_requirements(ids);
            r.push((clumps[i].0, needs));
            proof {
                assert(at2 == at.push(i as int));
                assert forall|k: int| 0 <= k < r@.len() implies (#[trigger] r@[k]).0 == clumps@[at2[k]].0 && grouped(r@[k].1@, clumps@[at2[k]].1@) by {
                    if k < before.len() {
                        assert(r@[k] == before[k]);
                        assert(at2[k] == at[k]);
                    }
                }
            }
        } else {
            assert(at2 == at);
        }
    }
    r
}

/// Starts a round of respawn attempts, if one is due: while clumps are left
/// and attempts remain, a round runs and uses up one attempt. False (and
/// nothing used) once no clump is left or no attempt remains.
pub fn begin_regen_round(clumps_left: usize, attempts_left: &mut i32) -> (r: bool)
    requires
        *old(attempts_left) > i32::MIN,
    ensures
        r == (clumps_left > 0 && *old(attempts_left) != 0),
        r ==> *final(attempts_left) == *old(attempts_left) - 1,
        !r ==> *final(attempts_left) == *old(attempts_left),
{
    if clumps_left == 0 || *attempts_left == 0 {
        return false;
    }
    *attempts_left = *attempts_left - 1;
    true
}

/// Attempts at spawning one clump in this round: `None` when the world
/// no longer misses enough for a whole clump (the clump is then dropped
/// after the round), else the spawn iterations for what it misses.
pub fn clump_round_attempts(needs: &Vec<(i32, usize)>, missing: &HashMap<i32, usize>) -> (r: Option<i32>)
    requires
        forall|i: int| 0 <= i < needs@.len() ==> missing@.contains_key((#[trigger] needs@[i]).0) && needs@[i].1 > 0,
    ensures
        ({
            let possible = spawns_allowed(needs@, missing@, needs@.len() as int);
            r == if possible <= 0 { None::<i32> } else { Some((1 + possible / 10) as i32) }
        }),
{
    let possible = possible_spawns(needs, missing);
    if possible <= 0 {
        return None;
    }
    Some(spawn_iterations(possible))
}

/// The clumps among the first `n` whose id is not in `removed`, in order.
pub open spec fn kept_clumps(clumps: Seq<(i32, Vec<(i32, usize)>)>, removed: Seq<i32>, n: int) -> Seq<(i32, Vec<(i32, usize)>)>
    decreases n,
{
    if n <= 0 {
        Seq::empty()
    } else {
        let rest = kept_clumps(clumps, removed, n - 1);
        if removed.contains(clumps[n - 1].0) { rest } else { rest.push(clumps[n - 1]) }
    }
}

/// Drops, after a round, the clumps found unable to spawn in it.
pub fn drop_clumps(clumps: &mut Vec<(i32, Vec<(i32, usize)>)>, removed: &Vec<i32>)
    ensures
        final(clumps)@ == kept_clumps(old(clumps)@, removed@, old(clumps)@.len() as int),
{
    let mut kept: Vec<(i32, Vec<(i32, usize)>)> = Vec::new();
    let n = clumps.len();
    let ghost before = clumps@;
    while clumps.len() > 0
        invariant
            n == before.len(),
            clumps@.len() <= n,
            clumps@ == before.subrange(n - clumps@.len(), n as int),
            kept@ == kept_clumps(before, removed@, n - clumps@.len()),
        decreases clumps@.len(),
    {
        let k = n - clumps.len();
        let clump = clumps.remove(0);
        assert(clump == before[k as int]);
        let mut gone = false;
        let m = removed.len();
        for j in 0..m
            invariant
                m == removed@.len(),
                gone == exists|i: int| 0 <= i < j && removed@[i] == clump.0,
        {
            if removed[j] == clump.0 {
                gone = true;
            }
        }
        assert(gone == removed@.contains(clump.0));
        if !gone {
            kept.push(clump);
        }
        assert(clumps@ =~= before.subrange(n - clumps@.len(), n as int));
    }
    *clumps = kept;
}

/// After a clump spawned, the world misses each of its resources that
/// many times fewer.
pub fn record_clump_spawn(missing: &mut HashMap<i32, usize>, needs: &Vec<(i32, usize)>)
    requires
        distinct_ids(needs@),
        forall|i: int| 0 <= i < needs@.len() ==> old(missing)@.contains_key((#[trigger] needs@[i]).0)
            && old(missing)@[needs@[i].0] >= needs@[i].1,
    ensures
        final(missing)@.dom() == old(missing)@.dom(),
        forall|i: int| 0 <= i < needs@.len() ==> final(missing)@[(#[trigger] needs@[i]).0] == old(missing)@[needs@[i].0] - needs@[i].1,
        forall|id: i32| old(missing)@.contains_key(id) && (forall|i: int| 0 <= i < needs@.len() ==> (#[trigger] needs@[i]).0 != id)
            ==> final(missing)@[id] == old(missing)@[id],
{
    let n = needs.len();
    for i in 0..n
        invariant
            n == needs@.len(),
            distinct_ids(needs@),
            forall|k: int| 0 <= k < needs@.len() ==> old(missing)@.contains_key((#[trigger] needs@[k]).0)
                && old(missing)@[needs@[k].0] >= needs@[k].1,
            missing@.dom() == old(missing)@.dom(),
            forall|k: int| 0 <= k < i ==> missing@[(#[trigger] needs@[k]).0] == old(missing)@[needs@[k].0] - needs@[k].1,
            forall|id: i32| old(missing)@.contains_key(id) && (forall|k: int| 0 <= k < i ==> (#[trigger] needs@[k]).0 != id)
                ==> missing@[id] == old(missing)@[id],
    {
        let (id, count) = needs[i];
        let ghost before = missing@;
        assert(old(missing)@.contains_key(needs@[i as int].0));
        assert forall|k: int| 0 <= k < i implies (#[trigger] needs@[k]).0 != id by {}
        let have: usize = match missing.get(&id) {
            Some(v) => *v,
            None => 0,
        };
        missing.insert(id, have - count);
        proof {
            assert(missing@.dom() =~= old(missing)@.dom());
            assert forall|k: int| 0 <= k < i + 1 implies missing@[(#[trigger] needs@[k]).0] == old(missing)@[needs@[k].0] - needs@[k].1 by {
                if k < i {
                    assert(needs@[k].0 != id);
                }
            }
        }
    }
}

/// A clump found able to spawn at least once can have its spawn recorded:
/// the world misses each of its resources at least as many times as the
/// clump holds it.
pub proof fn law_possible_spawn_can_be_recorded(needs: Seq<(i32, usize)>, missing: Map<i32, usize>)
    requires
        forall|i: int| 0 <= i < needs.len() ==> missing.contains_key((#[trigger] needs[i]).0) && needs[i].1 > 0,
        forall|i: int| 0 <= i < needs.len() ==> missing[(#[trigger] needs[i]).0] <= i32::MAX,
        spawns_allowed(needs, missing, needs.len() as int) > 0,
    ensures
        forall|i: int| 0 <= i < needs.len() ==> missing[(#[trigger] needs[i]).0] >= needs[i].1,
{
    assert forall|i: int| 0 <= i < needs.len() implies missing[(#[trigger] needs[i]).0] >= needs[i].1 by {
        lemma_spawns_allowed_below(needs, missing, i, needs.len() as int);
        let q = missing[needs[i].0] / needs[i].1;
        assert(q <= missing[needs[i].0]) by (nonlinear_arith)
            requires
                needs[i].1 > 0,
                q == missing[needs[i].0] / needs[i].1,
        ;
        if missing[needs[i].0] < needs[i].1 {
            assert(q == 0) by (nonlinear_arith)
                requires
                    needs[i].1 > 0,
                    missing[needs[i].0] < needs[i].1,
                    q == missing[needs[i].0] / needs[i].1,
            ;
        }
    }
}

/// Within one round a clump gets `1 + p / 10` spawn attempts, where `p` is
/// how many whole clumps the world misses; that is never more than `p`, so
/// every spawn of the round stays recordable: before the `k`-th spawn
/// (counting from 0) is recorded, after `k` recorded ones, the world still
/// misses each resource at least as many times as the clump holds it.
pub proof fn law_round_spawns_can_be_recorded(needs: Seq<(i32, usize)>, missing: Map<i32, usize>, k: int)
    requires
        forall|i: int| 0 <= i < needs.len() ==> missing.contains_key((#[trigger] needs[i]).0) && needs[i].1 > 0,
        forall|i: int| 0 <= i < needs.len() ==> missing[(#[trigger] needs[i]).0] <= i32::MAX,
        spawns_allowed(needs, missing, needs.len() as int) > 0,
        0 <= k < 1 + spawns_allowed(needs, missing, needs.len() as int) / 10,
    ensures
        1 + spawns_allowed(needs, missing, needs.len() as int) / 10 <= spawns_allowed(needs, missing, needs.len() as int),
        forall|i: int| 0 <= i < needs.len() ==> missing[(#[trigger] needs[i]).0] - k * needs[i].1 >= needs[i].1,
{
    let p = spawns_allowed(needs, missing, needs.len() as int);
    assert(1 + p / 10 <= p) by (nonlinear_arith)
        requires
            p > 0,
    ;
    assert forall|i: int| 0 <= i < needs.len() implies missing[(#[trigger] needs[i]).0] - k * needs[i].1 >= needs[i].1 by {
        lemma_spawns_allowed_below(needs, missing, i, needs.len() as int);
        let m = missing[needs[i].0] as int;
        let c = needs[i].1 as int;
        assert(k * c + c <= m) by (nonlinear_arith)
            requires
                c > 0,
                m >= 0,
                0 <= k,
                k + 1 <= p,
                p <= m / c,
        ;
    }
}

/// The clumps allowed never exceed what any single need allows.
proof fn lemma_spawns_allowed_below(needs: Seq<(i32, usize)>, missing: Map<i32, usize>, i: int, n: int)
    requires
        0 <= i < n <= needs.len(),
        forall|k: int| 0 <= k < needs.len() ==> missing.contains_key((#[trigger] needs[k]).0) && needs[k].1 > 0,
        forall|k: int| 0 <= k < needs.len() ==> missing[(#[trigger] needs[k]).0] <= i32::MAX,
    ensures
        spawns_allowed(needs, missing, n) <= missing[needs[i].0] / needs[i].1,
    decreases n,
{
    let q = missing[needs[i].0] / needs[i].1;
    assert(0 <= q <= missing[needs[i].0]) by (nonlinear_arith)
        requires
            needs[i].1 > 0,
            q == missing[needs[i].0] / needs[i].1,
    ;
    if n - 1 > i {
        lemma_spawns_allowed_below(needs, missing, i, n - 1);
    }
}

/// Whether terrain suits a prize resource: on land it must not be under
/// water, in water it must be.
pub fn suits_prize_terrain(spawns_on_land: bool, water_level: i32, elevation: i32) -> (r: bool)
    ensures
        r == if spawns_on_land { water_level <= elevation } else { water_level >= elevation },
{
    if spawns_on_land {
        !(water_level > elevation)
    } else {
        !(water_level < elevation)
    }
}

/// Where one kind of resource may grow.
#[derive(Clone, Copy, Debug, PartialEq, Eq, Structural)]
pub struct ResourceSpawnTerrain {
    pub spawns_on_land: bool,
    pub spawns_in_water: bool,
    pub land_elevation_min: i32,
    pub land_elevation_max: i32,
    pub water_depth_min: i32,
    pub water_depth_max: i32,
}

/// Whether a terrain cell suits a resource: land within its elevation
/// range, or water within its depth range.
pub fn terrain_suits(info: ResourceSpawnTerrain, water_level: i32, elevation: i32) -> (r: bool)
    requires
        i32::MIN <= water_level - elevation <= i32::MAX,
    ensures
        r == if info.spawns_on_land {
            water_level <= elevation && info.land_elevation_min <= elevation <= info.land_elevation_max
        } else if info.spawns_in_water {
            water_level >= elevation && info.water_depth_min <= water_level - elevation <= info.water_depth_max
        } else {
            false
        },
{
    if info.spawns_on_land {
        if water_level > elevation {
            return false;
        }
        !(elevation < info.land_elevation_min || elevation > info.land_elevation_max)
    } else if info.spawns_in_water {
        if water_level < elevation {
            return false;
        }
        let water_depth = water_level - elevation;
        !(water_depth < info.water_depth_min || water_depth > info.water_depth_max)
    } else {
        false
    }
}

/// A tile a clump takes when it spawns, relative to the clump's center
/// before the clump is turned: which resource takes it, whether it is that
/// resource's own position (where the resource entity goes), and the
/// direction that resource faces (`None`: a random one).
#[derive(Clone, Copy, Debug, PartialEq, Eq, Structural)]
pub struct ClumpTile {
    pub resource_id: i32,
    pub x: i32,
    pub z: i32,
    pub is_center: bool,
    pub direction: Option<i32>,
}

/// The footprint a resource spawns with: its own, or a single walkable tile
/// at its position when it has none.
pub open spec fn spawn_footprint(footprint: Seq<FootprintTile>) -> Seq<FootprintTile> {
    if footprint.len() == 0 {
        seq![FootprintTile { x: 0, z: 0, footprint_type: FootprintType::WalkableResource }]
    } else {
        footprint
    }
}

/// The tiles the first `j` tiles of a resource's footprint take (the
/// perimeter left out), the resource standing at (`x`, `z`).
pub open spec fn resource_tiles(
    resource_id: i32,
    footprint: Seq<FootprintTile>,
    x: i32,
    z: i32,
    direction: Option<i32>,
    j: int,
) -> Seq<ClumpTile>
    decreases j,
{
    if j <= 0 {
        Seq::empty()
    } else {
        let rest = resource_tiles(resource_id, footprint, x, z, direction, j - 1);
        let d = footprint[j - 1];
        if d.footprint_type != FootprintType::Perimeter {
            rest.push(
                ClumpTile {
                    resource_id,
                    x: (d.x + x) as i32,
                    z: (d.z + z) as i32,
                    is_center: d.x == 0 && d.z == 0,
                    direction,
                },
            )
        } else {
            rest
        }
    }
}

/// The tiles the first `n` resources of a clump take, in order, the clump
/// facing `facing_direction`.
pub open spec fn clump_spawn_tiles(clump: ResourceClumpDescExtended, facing_direction: i32, n: int) -> Seq<ClumpTile>
    decreases n,
{
    if n <= 0 {
        Seq::empty()
    } else {
        let i = n - 1;
        let fp = spawn_footprint(clump.resource_desc@[i].footprint@);
        clump_spawn_tiles(clump, facing_direction, n - 1) + resource_tiles(
            clump.clump.resource_id@[i],
            fp,
            clump.clump.x@[i],
            clump.clump.z@[i],
            turned_direction(facing_direction, clump.clump.direction@[i]),
            fp.len() as int,
        )
    }
}

impl ResourceClumpDescExtended {
    /// Whether the clump's lists line up: one description, offset and
    /// direction per resource, offsets that stay within `i32` and directions
    /// that turn without overflow.
    pub open spec fn lines_up(&self) -> bool {
        let n = self.clump.resource_id@.len();
        &&& self.resource_desc@.len() == n
        &&& self.clump.x@.len() >= n
        &&& self.clump.z@.len() >= n
        &&& self.clump.direction@.len() >= n
        &&& offsets_fit(self.resource_desc@, self.clump.x@, self.clump.z@)
        &&& forall|i: int| 0 <= i < n ==> #[trigger] self.clump.direction@[i] <= i32::MAX - 6
    }

    /// The tiles the clump takes when it spawns facing `facing_direction`:
    /// for each resource in turn, each tile of its footprint (a single
    /// walkable tile when it has none) that is not perimeter, at the
    /// resource's offset, before the clump is turned around its center by
    /// `facing_direction / 2` steps.
    pub fn spawn_tiles(&self, facing_direction: i32) -> (r: Vec<ClumpTile>)
        requires
            self.lines_up(),
            0 <= facing_direction <= 12,
        ensures
            r@ == clump_spawn_tiles(*self, facing_direction, self.clump.resource_id@.len() as int),
    {
        let mut r: Vec<ClumpTile> = Vec::new();
        let n = self.clump.resource_id.len();
        for i in 0..n
            invariant
                n == self.clump.resource_id@.len(),
                self.lines_up(),
                0 <= facing_direction <= 12,
                r@ == clump_spawn_tiles(*self, facing_direction, i as int),
        {
            let resource_id = self.clump.resource_id[i];
            let x = self.clump.x[i];
            let z = self.clump.z[i];
            let dir = self.clump.direction[i];
            assert(self.clump.direction@[i as int] <= i32::MAX - 6);
            let direction = resource_direction(facing_direction, dir);
            let ghost before = r@;
            let ghost fp = spawn_footprint(self.resource_desc@[i as int].footprint@);
            let own = &self.resource_desc[i].footprint;
            if own.len() == 0 {
                r.push(ClumpTile { resource_id, x, z, is_center: true, direction });
                proof {
                    assert(resource_tiles(resource_id, fp, x, z, direction, 0) =~= Seq::<ClumpTile>::empty());
                    assert(r@ =~= before + resource_tiles(resource_id, fp, x, z, direction, 1));
                }
            } else {
                let m = own.len();
                for j in 0..m
                    invariant
                        m == own@.len(),
                        own@ == fp,
                        fp == self.resource_desc@[i as int].footprint@,
                        0 <= i < self.resource_desc@.len(),
                        x == self.clump.x@[i as int],
                        z == self.clump.z@[i as int],
                        offsets_fit(self.resource_desc@, self.clump.x@, self.clump.z@),
                        r@ == before + resource_tiles(resource_id, fp, x, z, direction, j as int),
                {
                    let d = own[j];
                    assert(i32::MIN <= self.resource_desc@[i as int].footprint@[j as int].x + self.clump.x@[i as int] <= i32::MAX);
                    if d.footprint_type != FootprintType::Perimeter {
                        r.push(ClumpTile { resource_id, x: d.x + x, z: d.z + z, is_center: d.x == 0 && d.z == 0, direction });
                    }
                    assert(r@ =~= before + resource_tiles(resource_id, fp, x, z, direction, j + 1));
                }
            }
        }
        r
    }
}

/// The remainder of `x` divided by six, with the sign of `x`.
pub open spec fn rem_six(x: int) -> int {
    if x >= 0 {
        x % 6
    } else {
        -((-x) % 6)
    }
}

/// The direction a resource of a clump faces once the clump is turned to
/// `facing_direction`: its own direction `resource_dir` turned by the
/// clump's steps, or `None` (a random direction) for `-1`.
pub open spec fn turned_direction(facing_direction: i32, resource_dir: i32) -> Option<i32> {
    if resource_dir == -1 {
        None
    } else {
        Some((rem_six(facing_direction / 2 + resource_dir) * 2) as i32)
    }
}

/// The direction a resource of a clump faces once the clump is turned to
/// `facing_direction` (one of the six flat directions, numbered in steps of
/// two from 0); `None` when the resource picks its own direction at random.
pub fn resource_direction(facing_direction: i32, resource_dir: i32) -> (r: Option<i32>)
    requires
        0 <= facing_direction <= 12,
        resource_dir != -1 ==> i32::MIN <= facing_direction / 2 + resource_dir <= i32::MAX,
    ensures
        r == turned_direction(facing_direction, resource_dir),
{
    if resource_dir == -1 {
        None
    } else {
        let rotate_steps = facing_direction / 2;
        let sum = rotate_steps + resource_dir;
        let rem = sum % 6;
        proof {
            if sum >= 0 {
                assert(rem == sum % 6);
            }
        }
        Some(rem * 2)
    }
}

/// Byte `j` (of four) of a packed word.
pub open spec fn byte_of(word: u32, j: int) -> u32 {
    (word >> ((j * 8) as u32)) & 0xFF
}

/// The density of `biome_index` among the first `n` of the four biomes a
/// terrain cell packs: that of the first matching slot with a density,
/// or zero.
pub open spec fn density_among(biomes: u32, densities: u32, biome_index: u64, n: int) -> u32
    decreases n,
{
    if n <= 0 {
        0
    } else {
        let before = density_among(biomes, densities, biome_index, n - 1);
        if before > 0 {
            before
        } else if byte_of(biomes, n - 1) as u64 == biome_index {
            byte_of(densities, n - 1)
        } else {
            0
        }
    }
}

/// The density (out of 128) with which a terrain cell holds a biome: the
/// cell packs four biomes and their densities a byte each; the first slot
/// of that biome with a density counts.
pub fn biome_density(biomes: u32, densities: u32, biome_index: u64) -> (r: u32)
    ensures
        r == density_among(biomes, densities, biome_index, 4),
        r <= 0xFF,
{
    let mut density: u32 = 0;
    let mut j: u32 = 0;
    while j < 4
        invariant
            j <= 4,
            density == density_among(biomes, densities, biome_index, j as int),
            density <= 0xFF,
        decreases 4 - j,
    {
        let biome = (biomes >> (j * 8)) & 0xFF;
        if density == 0 && (biome as u64) == biome_index {
            density = (densities >> (j * 8)) & 0xFF;
            assert(((densities >> (j * 8)) & 0xFF) <= 0xFF) by (bit_vector);
        }
        j = j + 1;
    }
    density
}

} // verus!
