use std::collections::HashMap;

use bitcraft_game::ability_unlock::{AbilityUnlockDesc, AbilityUnlockError, LevelRequirement};
use bitcraft_game::achievement::{KnowledgeEntry, KnowledgeState};
use bitcraft_game::building::{grow_inventory, inventory_needs, BuildingFunction, InventoryNeed};
use bitcraft_game::inventory::InventoryState;
use bitcraft_game::item_stack::{ItemStack, ItemType, Pocket};
use bitcraft_game::passive_craft::{process_oldest_queued, PassiveCraftState, PassiveCraftStatus};
use bitcraft_game::quest::{check_requirements, QuestError, QuestRequirement};
use bitcraft_game::resources::biome_density;
use bitcraft_game::waystone::{validate_waystone_teleport, WaystoneBuilding, WaystoneError};

fn unlock(ability_data: Option<i32>) -> AbilityUnlockDesc {
    AbilityUnlockDesc {
        ability_data,
        blocking_knowledges: vec![9],
        required_claim_tech_id: 0,
        required_knowledges: vec![5],
        level_requirements: vec![LevelRequirement { skill_id: 2, level: 10 }],
    }
}

fn acquired(id: i32) -> KnowledgeEntry {
    KnowledgeEntry { id, state: KnowledgeState::Acquired }
}

#[test]
fn abilities_follow_their_first_matching_unlock() {
    let levels: HashMap<i32, i32> = [(2, 12)].into_iter().collect();
    let unlocks = vec![unlock(Some(1)), AbilityUnlockDesc { required_claim_tech_id: 4, ..unlock(None) }];
    assert_eq!(AbilityUnlockDesc::evaluate(&unlocks, 1, &vec![acquired(5)], &vec![], &levels), Ok(()));
    assert_eq!(
        AbilityUnlockDesc::evaluate(&unlocks, 1, &vec![acquired(5), acquired(9)], &vec![], &levels),
        Err(AbilityUnlockError::NoLongerAvailable)
    );
    assert_eq!(AbilityUnlockDesc::evaluate(&unlocks, 1, &vec![], &vec![], &levels), Err(AbilityUnlockError::MissingKnowledge));
    assert_eq!(
        AbilityUnlockDesc::evaluate(&unlocks, 3, &vec![acquired(5)], &vec![], &levels),
        Err(AbilityUnlockError::MissingClaimTech)
    );
    assert_eq!(AbilityUnlockDesc::evaluate(&unlocks, 3, &vec![acquired(5)], &vec![4], &levels), Ok(()));
    let low: HashMap<i32, i32> = [(2, 9)].into_iter().collect();
    assert_eq!(AbilityUnlockDesc::evaluate(&unlocks, 1, &vec![acquired(5)], &vec![], &low), Err(AbilityUnlockError::SkillTooLow));
    assert_eq!(AbilityUnlockDesc::evaluate(&vec![unlock(Some(1))], 2, &vec![], &vec![], &levels), Ok(()));
}

fn bag(pockets: Vec<Pocket>) -> InventoryState {
    InventoryState { entity_id: 1, pockets, inventory_index: 0, cargo_index: 4, owner_entity_id: 0, player_owner_entity_id: 0 }
}

#[test]
fn quest_chains_check_requirements_in_order() {
    let inv = bag(vec![Pocket {
        volume: 100,
        contents: Some(ItemStack { item_id: 3, item_type: ItemType::Item, quantity: 2, durability: None }),
        locked: false,
    }]);
    let two = ItemStack { item_id: 3, item_type: ItemType::Item, quantity: 2, durability: None };
    let three = ItemStack { quantity: 3, ..two };
    assert_eq!(check_requirements(&vec![QuestRequirement::QuestChain(7), QuestRequirement::ItemStack(two)], &vec![7], &inv), Ok(()));
    assert_eq!(
        check_requirements(&vec![QuestRequirement::QuestChain(8), QuestRequirement::Level { met: false }], &vec![7], &inv),
        Err(QuestError::PrerequisiteChainIncomplete)
    );
    assert_eq!(
        check_requirements(&vec![QuestRequirement::Achievement(1), QuestRequirement::Level { met: false }], &vec![], &inv),
        Err(QuestError::LevelTooLow)
    );
    assert_eq!(check_requirements(&vec![QuestRequirement::ItemStack(three)], &vec![], &inv), Err(QuestError::MissingRequiredItems));
    assert_eq!(check_requirements(&vec![], &vec![], &inv), Ok(()));
}

fn craft(entity_id: u64, status: PassiveCraftStatus, timestamp: i64) -> PassiveCraftState {
    PassiveCraftState { entity_id, recipe_id: 1, status, timestamp, slot: None }
}

#[test]
fn the_oldest_queued_craft_starts_first() {
    let mut crafts = vec![
        craft(1, PassiveCraftStatus::Processing, 1),
        craft(2, PassiveCraftStatus::Queued, 30),
        craft(3, PassiveCraftStatus::Queued, 20),
        craft(4, PassiveCraftStatus::Queued, 20),
    ];
    assert_eq!(process_oldest_queued(&mut crafts, 2, 100), Some(2));
    assert_eq!(crafts[2], PassiveCraftState { slot: Some(2), timestamp: 100, ..craft(3, PassiveCraftStatus::Processing, 0) });
    assert_eq!(process_oldest_queued(&mut crafts, 0, 200), Some(3));
    let mut none = vec![craft(1, PassiveCraftStatus::Complete, 1)];
    assert_eq!(process_oldest_queued(&mut none, 0, 5), None);
}

#[test]
fn building_functions_need_numbered_inventories() {
    let storage = BuildingFunction { storage_slots: 4, cargo_slots: 2, item_slot_size: 100, cargo_slot_size: 6000, is_bank: false };
    let bank = BuildingFunction { is_bank: true, ..storage };
    let nothing = BuildingFunction { storage_slots: 0, cargo_slots: 0, ..storage };
    let needs = inventory_needs(&vec![storage, bank, nothing, storage]);
    assert_eq!(
        needs,
        vec![
            InventoryNeed { inventory_index: 0, num_pockets: 6, cargo_index: 4, item_slot_size: 100, cargo_slot_size: 6000 },
            InventoryNeed { inventory_index: 1, num_pockets: 6, cargo_index: 4, item_slot_size: 100, cargo_slot_size: 6000 },
        ]
    );
    let mut inv = bag(vec![Pocket { volume: 100, contents: None, locked: false }; 4]);
    assert!(grow_inventory(&mut inv, needs[0]));
    assert_eq!(inv.pockets.len(), 6);
    assert_eq!(inv.pockets[5].volume, 100);
    assert!(!grow_inventory(&mut inv, needs[0]));
}

#[test]
fn biome_density_reads_the_first_slot_with_a_density() {
    let biomes: u32 = 0x05_03_03_01;
    let densities: u32 = 0x40_50_00_20;
    assert_eq!(biome_density(biomes, densities, 3), 0x50);
    assert_eq!(biome_density(biomes, densities, 1), 0x20);
    assert_eq!(biome_density(biomes, densities, 5), 0x40);
    assert_eq!(biome_density(biomes, densities, 9), 0);
}

#[test]
fn waystone_teleports_need_two_claimed_waystones_in_reach() {
    let stone = WaystoneBuilding { claim_entity_id: 4, described: true, is_waystone: true, located: true };
    assert_eq!(validate_waystone_teleport(Some(stone), Some(stone), 3, None), Ok(()));
    assert_eq!(validate_waystone_teleport(None, Some(stone), 3, None), Err(WaystoneError::BuildingDoesNotExist));
    assert_eq!(
        validate_waystone_teleport(Some(WaystoneBuilding { claim_entity_id: 0, ..stone }), Some(stone), 3, None),
        Err(WaystoneError::DestinationNotClaimed)
    );
    assert_eq!(
        validate_waystone_teleport(Some(stone), Some(WaystoneBuilding { is_waystone: false, ..stone }), 3, None),
        Err(WaystoneError::NotAWaystone)
    );
    assert_eq!(
        validate_waystone_teleport(Some(stone), Some(WaystoneBuilding { claim_entity_id: 0, ..stone }), 3, None),
        Err(WaystoneError::OriginNotClaimed)
    );
    assert_eq!(validate_waystone_teleport(Some(stone), Some(stone), 8, None), Err(WaystoneError::TooFarAway));
    assert_eq!(validate_waystone_teleport(Some(stone), Some(stone), 8, Some(4)), Ok(()));
    assert_eq!(
        validate_waystone_teleport(Some(WaystoneBuilding { located: false, ..stone }), Some(stone), 3, None),
        Err(WaystoneError::WaystoneDoesNotExist)
    );
}
