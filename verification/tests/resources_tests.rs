use std::collections::HashMap;

use bitcraft_game::resources::{
    clump_can_spawn, clump_requirements, missing_count, possible_spawns, record_clump_spawn, resource_direction,
    spawn_iterations, suits_prize_terrain, terrain_suits, FootprintTile, FootprintType, LazyMemoOccupiedTiles,
    PrecomputeOccupiedTiles, ResourceClumpDesc, ResourceClumpDescExtended, ResourceDesc, ResourceSpawnTerrain,
};
use bitcraft_game::resources::{spawnable_clumps, tally_missing, ClumpTile, ResourceTally};

fn desc(id: i32, footprint: Vec<FootprintTile>, spawn_priority: i32) -> ResourceDesc {
    ResourceDesc { id, footprint, spawn_priority, max_health: 100, not_respawning: false }
}

fn tile(x: i32, z: i32, footprint_type: FootprintType) -> FootprintTile {
    FootprintTile { x, z, footprint_type }
}

fn clump(resource_id: Vec<i32>, x: Vec<i32>, z: Vec<i32>) -> ResourceClumpDesc {
    let n = resource_id.len();
    ResourceClumpDesc { id: 1, resource_id, x, z, direction: vec![0; n] }
}

#[test]
fn extended_clump_gathers_footprints_without_perimeter() {
    let mut cache = HashMap::new();
    cache.insert(
        1,
        desc(1, vec![tile(0, 0, FootprintType::Hitbox), tile(1, 0, FootprintType::Perimeter), tile(0, 1, FootprintType::Walkable)], 3),
    );
    cache.insert(2, desc(2, vec![], 7));
    let extended = ResourceClumpDescExtended::new(clump(vec![1, 2], vec![0, 5], vec![0, -2]), &cache);
    assert_eq!(extended.spawn_priority, 7);
    assert!(!extended.is_single_tile);
    assert_eq!(
        extended.footprints,
        vec![tile(0, 0, FootprintType::Hitbox), tile(0, 1, FootprintType::Walkable), tile(5, -2, FootprintType::Hitbox)]
    );
    assert_eq!(extended.resource_desc.len(), 2);
    assert_eq!(extended.resource_desc[1].id, 2);
}

#[test]
fn a_lone_resource_without_footprint_is_single_tile() {
    let mut cache = HashMap::new();
    cache.insert(4, desc(4, vec![], 2));
    let extended = ResourceClumpDescExtended::new(clump(vec![4], vec![0], vec![0]), &cache);
    assert!(extended.is_single_tile);
    assert_eq!(extended.footprints, vec![tile(0, 0, FootprintType::Hitbox)]);
    assert_eq!(extended.spawn_priority, 2);
}

#[test]
fn place_holder_clump_is_a_single_empty_tile() {
    let extended = ResourceClumpDescExtended::place_holder(clump(vec![4], vec![0], vec![0]));
    assert!(extended.is_single_tile);
    assert!(extended.footprints.is_empty());
    assert!(extended.resource_desc.is_empty());
    assert_eq!(extended.spawn_priority, 0);
}

#[test]
fn precomputed_tiles_start_with_the_claims() {
    let mut tiles = PrecomputeOccupiedTiles::new(&vec![10, 20]);
    assert!(tiles.is_tile_occupied(10));
    assert!(!tiles.is_tile_occupied(30));
    tiles.mark_tile_occupied(30);
    assert!(tiles.is_tile_occupied(30));
    assert!(!PrecomputeOccupiedTiles::place_holder().is_tile_occupied(10));
}

#[test]
fn lazy_tiles_remember_what_was_looked_up() {
    let mut tiles = LazyMemoOccupiedTiles::new();
    assert_eq!(tiles.known_occupancy(5), None);
    assert!(!tiles.is_tile_occupied(5, false));
    assert!(!tiles.is_tile_occupied(5, true));
    assert_eq!(tiles.known_occupancy(5), Some(false));
    tiles.mark_tile_occupied(5);
    assert!(tiles.is_tile_occupied(5, false));
}

#[test]
fn missing_counts_only_respawning_resources_below_target() {
    assert_eq!(missing_count(100, 60, false), Some(40));
    assert_eq!(missing_count(100, 100, false), None);
    assert_eq!(missing_count(100, 60, true), None);
}

#[test]
fn clump_requirements_count_each_resource() {
    let needs = clump_requirements(&vec![3, 5, 3, 3]);
    assert_eq!(needs, vec![(3, 3), (5, 1)]);
    assert!(clump_requirements(&vec![]).is_empty());
}

#[test]
fn possible_spawns_is_the_scarcest_resource() {
    let mut missing = HashMap::new();
    missing.insert(3, 10usize);
    missing.insert(5, 2usize);
    let needs = vec![(3, 3usize), (5, 1usize)];
    assert!(clump_can_spawn(&vec![3, 5, 3], &missing));
    assert!(!clump_can_spawn(&vec![3, 6], &missing));
    assert_eq!(possible_spawns(&needs, &missing), 2);
    assert_eq!(possible_spawns(&vec![], &missing), i32::MAX);
    assert_eq!(spawn_iterations(2), 1);
    assert_eq!(spawn_iterations(25), 3);
    record_clump_spawn(&mut missing, &needs);
    assert_eq!(missing[&3], 7);
    assert_eq!(missing[&5], 1);
}

#[test]
fn terrain_suits_land_and_water_resources() {
    let land = ResourceSpawnTerrain {
        spawns_on_land: true,
        spawns_in_water: false,
        land_elevation_min: 10,
        land_elevation_max: 20,
        water_depth_min: 0,
        water_depth_max: 0,
    };
    assert!(terrain_suits(land, 5, 15));
    assert!(!terrain_suits(land, 16, 15));
    assert!(!terrain_suits(land, 5, 25));
    let water = ResourceSpawnTerrain { spawns_on_land: false, spawns_in_water: true, water_depth_min: 2, water_depth_max: 4, ..land };
    assert!(terrain_suits(water, 13, 10));
    assert!(!terrain_suits(water, 11, 10));
    assert!(!terrain_suits(water, 9, 10));
    let neither = ResourceSpawnTerrain { spawns_on_land: false, spawns_in_water: false, ..land };
    assert!(!terrain_suits(neither, 5, 15));
    assert!(suits_prize_terrain(true, 5, 5));
    assert!(!suits_prize_terrain(true, 6, 5));
    assert!(suits_prize_terrain(false, 6, 5));
    assert!(!suits_prize_terrain(false, 4, 5));
}

#[test]
fn resource_directions_turn_with_the_clump() {
    assert_eq!(resource_direction(4, 1), Some(6));
    assert_eq!(resource_direction(10, 2), Some(2));
    assert_eq!(resource_direction(0, -1), None);
    assert_eq!(resource_direction(0, -7), Some(-2));
    assert_eq!(resource_direction(2, 20), Some(6));
}

#[test]
fn spawn_tiles_place_each_resource_footprint_without_perimeter() {
    let mut cache = HashMap::new();
    cache.insert(
        1,
        desc(1, vec![tile(0, 0, FootprintType::Hitbox), tile(1, 0, FootprintType::Perimeter), tile(0, 1, FootprintType::Walkable)], 3),
    );
    cache.insert(2, desc(2, vec![], 7));
    let mut c = clump(vec![1, 2], vec![0, 5], vec![0, -2]);
    c.direction = vec![1, -1];
    let extended = ResourceClumpDescExtended::new(c, &cache);
    let tiles = extended.spawn_tiles(4);
    assert_eq!(
        tiles,
        vec![
            ClumpTile { resource_id: 1, x: 0, z: 0, is_center: true, direction: Some(6) },
            ClumpTile { resource_id: 1, x: 0, z: 1, is_center: false, direction: Some(6) },
            ClumpTile { resource_id: 2, x: 5, z: -2, is_center: true, direction: None },
        ]
    );
}

#[test]
fn the_tally_counts_what_respawning_resources_miss() {
    let entries = vec![
        ResourceTally { resource_id: 1, target: 100, count: 40, not_respawning: false },
        ResourceTally { resource_id: 2, target: 100, count: 40, not_respawning: true },
        ResourceTally { resource_id: 3, target: 10, count: 10, not_respawning: false },
        ResourceTally { resource_id: 4, target: 10, count: 12, not_respawning: false },
        ResourceTally { resource_id: 5, target: 7, count: 0, not_respawning: false },
    ];
    let missing = tally_missing(&entries);
    assert_eq!(missing.len(), 2);
    assert_eq!(missing[&1], 60);
    assert_eq!(missing[&5], 7);
}

#[test]
fn only_clumps_of_missing_resources_can_respawn() {
    let mut missing: HashMap<i32, usize> = HashMap::new();
    missing.insert(1, 5);
    missing.insert(2, 5);
    let clumps = vec![(10, vec![1, 1, 2]), (11, vec![1, 3]), (12, vec![2])];
    let r = spawnable_clumps(&clumps, &missing);
    assert_eq!(r.len(), 2);
    assert_eq!(r[0].0, 10);
    let mut needs = r[0].1.clone();
    needs.sort();
    assert_eq!(needs, vec![(1, 2), (2, 1)]);
    assert_eq!(r[1], (12, vec![(2, 1)]));
}

#[test]
fn every_spawn_of_a_round_stays_recordable() {
    let mut missing: HashMap<i32, usize> = HashMap::new();
    missing.insert(1, 95);
    let needs = vec![(1, 3)];
    let attempts = possible_spawns(&needs, &missing);
    assert_eq!(attempts, 31);
    let iterations = spawn_iterations(attempts);
    assert_eq!(iterations, 4);
    for _ in 0..iterations {
        record_clump_spawn(&mut missing, &needs);
    }
    assert_eq!(missing[&1], 83);
}
