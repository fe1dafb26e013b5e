use bitcraft_game::achievement::{AchievementDesc, KnowledgeEntry, KnowledgeState};
use bitcraft_game::character_stats::{stat_for_skill_power, stat_for_skill_speed, CharacterStatType, SkillType};
use bitcraft_game::crumb_trail::{trail_site_allowed, CrumbTrailState, OffsetCoordinates, TrailSearch, TrailStep};
use bitcraft_game::environment::{debuff_update, DebuffChange};
use bitcraft_game::inventory_type::InventoryType;
use bitcraft_game::item_stack::{ItemStack, ItemType, HEX_COIN_ID};
use bitcraft_game::placement::{validate_placement, ExistingFootprint, PlacementError, PlacementRequest, PlacementTile};
use bitcraft_game::resources::FootprintType;
use bitcraft_game::schedule::{expired_log_days, is_inactive, next_traveler_tick, seconds_until_daily_tick};
use bitcraft_game::deployable::free_slots;
use bitcraft_game::duel::DuelState;
use bitcraft_game::enemy_scaling::{highest_scaling, EnemyScalingDesc};
use bitcraft_game::housing::get_housing_move_minutes_cost;
use bitcraft_game::inventory::InventoryState;
use bitcraft_game::item_stack::Pocket;
use bitcraft_game::npc::{remember_building, split_trade_orders, TravelerTradeOrder};

fn at(x: i32, z: i32) -> OffsetCoordinates {
    OffsetCoordinates { x, z, dimension: 1 }
}

#[test]
fn hex_coins_are_items_without_durability() {
    let c = ItemStack::hex_coins(12);
    assert_eq!(c, ItemStack { item_id: HEX_COIN_ID, item_type: ItemType::Item, quantity: 12, durability: None });
    assert_eq!(c.clone_with_quantity(3).quantity, 3);
    assert_eq!(c.clone_with_quantity(3).item_id, HEX_COIN_ID);
}

#[test]
fn trail_search_backtracks_after_ten_attempts() {
    let mut search = TrailSearch::new(at(0, 0), 2);
    for _ in 0..10 {
        assert_eq!(search.next_attempt(), TrailStep::TryCrumb);
    }
    assert_eq!(search.next_attempt(), TrailStep::Backtracked);
    assert!(search.nodes.is_empty());
    assert_eq!(search.next_attempt(), TrailStep::Failed);
}

#[test]
fn trail_search_tries_the_prize_after_the_crumbs() {
    let mut search = TrailSearch::new(at(0, 0), 1);
    assert_eq!(search.next_attempt(), TrailStep::TryCrumb);
    search.accept_crumb(at(3, 4));
    for _ in 0..30 {
        assert_eq!(search.next_attempt(), TrailStep::TryPrize);
    }
    assert_eq!(search.next_attempt(), TrailStep::Backtracked);
    assert_eq!(search.nodes.len(), 1);
    assert_eq!(search.nodes[0].attempts, 1);
}

#[test]
fn crumb_locations_leave_out_the_starting_point() {
    let mut search = TrailSearch::new(at(0, 0), 2);
    search.next_attempt();
    search.accept_crumb(at(1, 1));
    search.next_attempt();
    search.accept_crumb(at(2, 2));
    assert_eq!(search.crumb_locations(), vec![at(1, 1), at(2, 2)]);
}

#[test]
fn trail_sites_respect_water_and_biome() {
    assert!(!trail_site_allowed(false, true, true, false, false));
    assert!(trail_site_allowed(false, true, true, true, false));
    assert!(trail_site_allowed(true, true, true, false, false));
    assert!(!trail_site_allowed(true, true, true, false, true));
    assert!(!trail_site_allowed(false, false, false, false, false));
    assert!(trail_site_allowed(true, false, true, false, true));
}

#[test]
fn a_finished_search_becomes_a_trail_without_its_prospecting_point() {
    let mut search = TrailSearch::new(at(0, 0), 2);
    assert_eq!(search.next_attempt(), TrailStep::TryCrumb);
    search.accept_crumb(at(1, 1));
    assert_eq!(search.next_attempt(), TrailStep::TryCrumb);
    search.accept_crumb(at(2, 2));
    let trail = search.into_trail(77, at(3, 3), vec![4, 6], vec![501], 12);
    assert_eq!(trail.entity_id, 77);
    assert_eq!(trail.original_location, at(0, 0));
    assert_eq!(trail.crumb_locations, vec![at(1, 1), at(2, 2)]);
    assert_eq!(trail.crumb_radiuses, vec![4, 6]);
    assert_eq!(trail.prize_location, at(3, 3));
    assert_eq!(trail.active_step, 0);
    assert_eq!(trail.prize_entity_ids, vec![501]);
    assert_eq!(trail.join_radius, 12);
    assert_eq!(trail.clean_up_counter, 0);
}

#[test]
fn trail_location_follows_the_active_step() {
    let trail = CrumbTrailState {
        entity_id: 1,
        original_location: at(0, 0),
        crumb_locations: vec![at(1, 1), at(2, 2)],
        crumb_radiuses: vec![3, 3],
        prize_location: at(9, 9),
        active_step: 0,
        prize_entity_ids: vec![],
        join_radius: 10,
        clean_up_counter: 0,
    };
    assert_eq!(trail.location(), at(0, 0));
    let later = CrumbTrailState { active_step: 2, ..trail };
    assert_eq!(later.location(), at(2, 2));
}

fn achievement(requisites: Vec<i32>, skill_id: i32, skill_level: i32, item_disc: Vec<i32>, chunks: i32) -> AchievementDesc {
    AchievementDesc {
        id: 100,
        requisites,
        skill_id,
        skill_level,
        resource_disc: vec![],
        crafting_disc: vec![],
        cargo_disc: vec![],
        item_disc,
        chunks_discovered: chunks,
    }
}

fn known(id: i32, state: KnowledgeState) -> KnowledgeEntry {
    KnowledgeEntry { id, state }
}

#[test]
fn achievements_need_every_requirement() {
    let a = achievement(vec![1], 3, 10, vec![7], 5);
    let done = vec![known(1, KnowledgeState::Acquired)];
    let items = vec![known(7, KnowledgeState::Acquired)];
    assert!(a.evaluate_achievement(10, &vec![], &vec![], &vec![], &items, &done, 5, true));
    assert!(!a.evaluate_achievement(9, &vec![], &vec![], &vec![], &items, &done, 5, true));
    assert!(!a.evaluate_achievement(10, &vec![], &vec![], &vec![], &items, &done, 4, true));
    assert!(!a.evaluate_achievement(10, &vec![], &vec![], &vec![], &items, &done, 5, false));
    let seen = vec![known(7, KnowledgeState::Discovered), known(7, KnowledgeState::Acquired)];
    assert!(!a.evaluate_achievement(10, &vec![], &vec![], &vec![], &seen, &done, 5, true));
    let no_skill = achievement(vec![], 0, 99, vec![], 0);
    assert!(no_skill.evaluate_achievement(0, &vec![], &vec![], &vec![], &vec![], &vec![], 0, true));
}

#[test]
fn eligible_achievements_are_new_with_requisites_acquired() {
    let first = AchievementDesc { id: 1, ..achievement(vec![], 0, 0, vec![], 0) };
    let second = AchievementDesc { id: 2, ..achievement(vec![1], 0, 0, vec![], 0) };
    let third = AchievementDesc { id: 3, ..achievement(vec![2], 0, 0, vec![], 0) };
    let all = vec![first, second, third];
    let known_list = vec![known(1, KnowledgeState::Discovered), known(1, KnowledgeState::Acquired)];
    assert_eq!(AchievementDesc::discover_eligible(&all, &known_list), vec![2]);
    assert_eq!(AchievementDesc::discover_eligible(&all, &vec![]), vec![1]);
    AchievementDesc::evaluate_all(5);
}

#[test]
fn skills_map_to_their_stats() {
    assert_eq!(stat_for_skill_speed(SkillType::Mining), Some(CharacterStatType::MiningSpeed));
    assert_eq!(stat_for_skill_speed(SkillType::Construction), None);
    assert_eq!(stat_for_skill_power(SkillType::Construction), Some(CharacterStatType::ConstructionPower));
    assert_eq!(stat_for_skill_power(SkillType::Cooking), Some(CharacterStatType::CookingPower));
    assert_eq!(stat_for_skill_power(SkillType::Other), None);
    assert_eq!(stat_for_skill_speed(SkillType::Other), None);
}

#[test]
fn inventory_types_compare() {
    assert_ne!(InventoryType::Player, InventoryType::Dropped);
    assert_eq!(InventoryType::LootChest, InventoryType::LootChest);
}

#[test]
fn debuffs_switch_on_and_off_with_the_biome() {
    let on = debuff_update(false, 4, 4, true, 1, 3);
    assert!(on.active);
    assert_eq!(on.change, DebuffChange::Activate);
    let off = debuff_update(true, 5, 4, true, 1, 3);
    assert!(!off.active);
    assert_eq!(off.change, DebuffChange::Deactivate);
    let protected = debuff_update(false, 4, 4, true, 3, 3);
    assert_eq!(protected.change, DebuffChange::Unchanged);
    let stays = debuff_update(true, 4, 4, true, 0, 3);
    assert!(stays.active);
    assert_eq!(stays.change, DebuffChange::Unchanged);
    assert!(!debuff_update(false, 4, 4, false, 0, 3).active);
}

fn request() -> PlacementRequest {
    PlacementRequest {
        too_far: false,
        main_elevation: Some(10),
        leaves_claim: false,
        required_paving: -1,
        player_must_be_neighbor: true,
        ignore_player_placement: false,
    }
}

fn good_tile() -> PlacementTile {
    PlacementTile {
        footprint_type: FootprintType::Hitbox,
        existing: vec![],
        paving_tier: None,
        terrain_elevation: Some(10),
        interior_walkable: true,
        is_corner: false,
        flat_corner: true,
        submerged: false,
        enemy_on_tile: false,
        player_adjacent: true,
        deployable_on_tile: false,
    }
}

#[test]
fn placement_accepts_a_clear_flat_site() {
    assert_eq!(validate_placement(request(), &vec![good_tile()]), Ok(()));
}

#[test]
fn placement_reports_the_first_failed_check() {
    assert_eq!(validate_placement(PlacementRequest { too_far: true, ..request() }, &vec![good_tile()]), Err(PlacementError::TooFar));
    assert_eq!(
        validate_placement(PlacementRequest { main_elevation: None, ..request() }, &vec![good_tile()]),
        Err(PlacementError::InvalidLocation)
    );
    assert_eq!(
        validate_placement(PlacementRequest { leaves_claim: true, ..request() }, &vec![good_tile()]),
        Err(PlacementError::OutsideOwnClaim)
    );
    let building = ExistingFootprint { is_resource: false, compatible: false, ignored: false, flattenable: false };
    assert_eq!(
        validate_placement(request(), &vec![PlacementTile { existing: vec![building], ..good_tile() }]),
        Err(PlacementError::OnTopOfBuilding)
    );
    let tree = ExistingFootprint { is_resource: true, compatible: false, ignored: false, flattenable: false };
    assert_eq!(
        validate_placement(request(), &vec![PlacementTile { existing: vec![tree], ..good_tile() }]),
        Err(PlacementError::OnTopOfResource)
    );
    assert_eq!(
        validate_placement(PlacementRequest { required_paving: 2, ..request() }, &vec![PlacementTile { paving_tier: Some(1), ..good_tile() }]),
        Err(PlacementError::RequiresPavingTier { tier: 2 })
    );
    assert_eq!(
        validate_placement(PlacementRequest { required_paving: 0, ..request() }, &vec![good_tile()]),
        Err(PlacementError::RequiresPaving)
    );
    assert_eq!(
        validate_placement(request(), &vec![PlacementTile { terrain_elevation: Some(11), ..good_tile() }]),
        Err(PlacementError::UnevenSurface)
    );
    assert_eq!(
        validate_placement(request(), &vec![PlacementTile { submerged: true, ..good_tile() }]),
        Err(PlacementError::OverWater)
    );
    assert_eq!(
        validate_placement(request(), &vec![PlacementTile { enemy_on_tile: true, ..good_tile() }]),
        Err(PlacementError::OnTopOfEnemy)
    );
    assert_eq!(
        validate_placement(request(), &vec![PlacementTile { player_adjacent: false, ..good_tile() }]),
        Err(PlacementError::NotNextToBuilding)
    );
    assert_eq!(
        validate_placement(
            request(),
            &vec![PlacementTile { footprint_type: FootprintType::Perimeter, submerged: true, terrain_elevation: Some(3), ..good_tile() }]
        ),
        Ok(())
    );
}

#[test]
fn daily_ticks_fall_at_the_time_of_day() {
    let day = 86400;
    assert_eq!(seconds_until_daily_tick(day * 3 + 100, 3600), 3500);
    assert_eq!(seconds_until_daily_tick(day * 3 + 7200, 3600), day - 3600);
    assert_eq!(seconds_until_daily_tick(day * 3 + 3600, 3600), 0);
}

#[test]
fn traveler_tasks_refresh_at_the_next_listed_hour() {
    let day = 86400;
    let start = day * 10;
    assert_eq!(next_traveler_tick(start + 3600, &vec![6, 18]), start + 6 * 3600);
    assert_eq!(next_traveler_tick(start + 7 * 3600, &vec![6, 18]), start + 18 * 3600);
    assert_eq!(next_traveler_tick(start + 19 * 3600, &vec![6, 18]), start + day + 6 * 3600);
}

#[test]
fn logs_and_sessions_expire() {
    assert_eq!(expired_log_days(100), [85, 84, 83]);
    let half_hour: i64 = 1_800_000_000;
    assert!(is_inactive(10 * half_hour, 8 * half_hour));
    assert!(!is_inactive(10 * half_hour, 9 * half_hour));
}


#[test]
fn duels_track_who_wandered_off() {
    let mut duel = DuelState::initiate(5, 10, 11);
    assert_eq!(duel.player_entity_ids, vec![10, 11]);
    assert!(duel.update_out_of_range_timestamp(1, true, 1_000_000));
    assert!(!duel.update_out_of_range_timestamp(1, true, 2_000_000));
    assert_eq!(duel.out_of_range_timestamps, vec![None, Some(1_000_000)]);
    assert!(!duel.timed_out(1, 1500, 2_000_000));
    assert!(duel.timed_out(1, 1000, 2_000_000));
    assert!(!duel.timed_out(0, 0, 2_000_000));
    assert!(duel.update_out_of_range_timestamp(1, false, 3_000_000));
    assert!(!duel.update_out_of_range_timestamp(1, false, 3_000_000));
    duel.set_loser(1);
    assert_eq!(duel.victor, Some(10));
    assert!(DuelState::are_players_dueling(Some(&duel), 11));
    assert!(!DuelState::are_players_dueling(Some(&duel), 12));
    assert!(!DuelState::are_players_dueling(None, 11));
}

#[test]
fn traders_remember_their_last_three_ruins() {
    let mut previous = vec![1, 2, 3];
    remember_building(&mut previous, 4);
    assert_eq!(previous, vec![2, 3, 4]);
    remember_building(&mut previous, 0);
    assert_eq!(previous, vec![2, 3, 4]);
    let mut few = vec![7];
    remember_building(&mut few, 8);
    assert_eq!(few, vec![7, 8]);
}

#[test]
fn trade_orders_split_into_fixed_and_drawn() {
    let orders = vec![
        TravelerTradeOrder { id: 1, traveler: 2, always_offered: true },
        TravelerTradeOrder { id: 2, traveler: 2, always_offered: false },
        TravelerTradeOrder { id: 3, traveler: 5, always_offered: true },
        TravelerTradeOrder { id: 4, traveler: 2, always_offered: false },
    ];
    assert_eq!(split_trade_orders(&orders, 2), (vec![1], vec![2, 4]));
}

#[test]
fn enemy_scaling_takes_the_highest_level_met() {
    let levels = vec![
        EnemyScalingDesc { id: 1, required_players_count: 1 },
        EnemyScalingDesc { id: 2, required_players_count: 3 },
        EnemyScalingDesc { id: 3, required_players_count: 2 },
        EnemyScalingDesc { id: 4, required_players_count: 3 },
    ];
    assert_eq!(highest_scaling(&levels, 2).map(|d| d.id), Some(3));
    assert_eq!(highest_scaling(&levels, 5).map(|d| d.id), Some(2));
    assert_eq!(highest_scaling(&levels, 0), None);
}

#[test]
fn free_slots_are_the_unused_seats() {
    assert_eq!(free_slots(4, &vec![1, 3]), vec![0, 2]);
    assert_eq!(free_slots(0, &vec![]), Vec::<i32>::new());
    assert_eq!(free_slots(2, &vec![5]), vec![0, 1]);
}

#[test]
fn moving_a_house_costs_by_what_it_holds() {
    let inv = InventoryState {
        entity_id: 1,
        pockets: vec![
            Pocket { volume: 100, contents: Some(ItemStack { item_id: 3, item_type: ItemType::Item, quantity: 50, durability: None }), locked: false },
            Pocket { volume: 6000, contents: Some(ItemStack { item_id: 4, item_type: ItemType::Cargo, quantity: 3, durability: None }), locked: false },
            Pocket { volume: 100, contents: None, locked: false },
        ],
        inventory_index: 0,
        cargo_index: 1,
        owner_entity_id: 0,
        player_owner_entity_id: 0,
    };
    assert_eq!(get_housing_move_minutes_cost(&vec![inv]), 30 + 30 + 720);
    assert_eq!(get_housing_move_minutes_cost(&vec![]), 0);
    let hoard = InventoryState {
        entity_id: 2,
        pockets: vec![Pocket {
            volume: 6000,
            contents: Some(ItemStack { item_id: 4, item_type: ItemType::Cargo, quantity: 5000, durability: None }),
            locked: false,
        }],
        inventory_index: 0,
        cargo_index: 0,
        owner_entity_id: 0,
        player_owner_entity_id: 0,
    };
    assert_eq!(get_housing_move_minutes_cost(&vec![hoard]), 28800);
}

#[test]
fn acquiring_discovers_first_and_evaluates_each_discovered_entry() {
    let known = vec![
        KnowledgeEntry { id: 5, state: KnowledgeState::Unknown },
        KnowledgeEntry { id: 6, state: KnowledgeState::Discovered },
        KnowledgeEntry { id: 7, state: KnowledgeState::Acquired },
    ];
    assert!(AchievementDesc::must_discover(&known, 5));
    assert!(AchievementDesc::must_discover(&known, 9));
    assert!(!AchievementDesc::must_discover(&known, 6));
    assert!(!AchievementDesc::must_discover(&known, 7));
    assert_eq!(AchievementDesc::evaluations_due(&known, 6), 1);
    assert_eq!(AchievementDesc::evaluations_due(&known, 7), 0);
    assert_eq!(AchievementDesc::evaluations_due(&known, 5), 0);
}
