use bitcraft_game::item_stack::{ItemStack, ItemType};
use bitcraft_game::lost_items::{crafting_lost_items, is_last_market, LostAction, LostCraft};
use bitcraft_game::passive_craft::PassiveCraftStatus;

fn item(id: i32, quantity: i32) -> ItemStack {
    ItemStack { item_id: id, item_type: ItemType::Item, quantity, durability: None }
}

#[test]
fn passive_crafts_give_back_outputs_when_complete_and_inputs_otherwise() {
    let crafts = vec![
        LostCraft { owner_entity_id: 1, status: PassiveCraftStatus::Complete, outputs: vec![item(10, 2)], inputs: vec![item(20, 5)] },
        LostCraft { owner_entity_id: 2, status: PassiveCraftStatus::Queued, outputs: vec![item(10, 2)], inputs: vec![item(20, 5)] },
        LostCraft { owner_entity_id: 1, status: PassiveCraftStatus::Processing, outputs: vec![item(11, 1)], inputs: vec![item(21, 3)] },
    ];
    let lost = crafting_lost_items(&crafts, &vec![]);
    assert_eq!(lost.len(), 2);
    assert_eq!(lost[&1], vec![item(10, 2), item(21, 3)]);
    assert_eq!(lost[&2], vec![item(20, 5)]);
}

#[test]
fn active_crafts_give_back_completed_outputs_then_refunded_inputs() {
    let crafts = vec![LostCraft { owner_entity_id: 4, status: PassiveCraftStatus::Complete, outputs: vec![item(1, 1)], inputs: vec![] }];
    let actions = vec![
        LostAction { owner_entity_id: 4, completed_crafts: 3, refunded_crafts: 2, outputs: vec![item(5, 2)], inputs: vec![item(6, 4), item(7, 1)] },
        LostAction { owner_entity_id: 9, completed_crafts: 0, refunded_crafts: 1, outputs: vec![item(5, 2)], inputs: vec![item(6, 4)] },
    ];
    let lost = crafting_lost_items(&crafts, &actions);
    assert_eq!(lost[&4], vec![item(1, 1), item(5, 6), item(6, 8), item(7, 2)]);
    assert_eq!(lost[&9], vec![item(5, 0), item(6, 4)]);
}

#[test]
fn nothing_running_owes_nothing() {
    assert!(crafting_lost_items(&vec![], &vec![]).is_empty());
}

#[test]
fn only_the_last_market_of_a_claim_counts() {
    assert!(is_last_market(1));
    assert!(!is_last_market(0));
    assert!(!is_last_market(2));
}
