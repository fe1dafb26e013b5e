use std::collections::HashMap;

use bitcraft_game::inventory::{InventoryState, RemoveItemResult};
use bitcraft_game::inventory_pool::{
    deposit_to_player_inventory_and_nearby_deployables_and_get_overflow_stack,
    withdraw_from_player_inventory_and_nearby_deployables,
    withdraw_full_durability_from_player_inventory_and_nearby_deployables, TransferError,
};
use bitcraft_game::inventory_transfer::{remove_stacks_from_player_inventory, InputItemStack, StackRemoval};
use bitcraft_game::item_stack::{ItemStack, ItemType, Pocket, HEX_COIN_ID};

fn item(id: i32, quantity: i32) -> ItemStack {
    ItemStack { item_id: id, item_type: ItemType::Item, quantity, durability: None }
}

fn tool(id: i32, durability: i32) -> ItemStack {
    ItemStack { item_id: id, item_type: ItemType::Item, quantity: 1, durability: Some(durability) }
}

fn coins(quantity: i32) -> ItemStack {
    ItemStack::hex_coins(quantity)
}

fn pocket(volume: i32, contents: Option<ItemStack>) -> Pocket {
    Pocket { volume, contents, locked: false }
}

fn inventory(entity_id: u64, pockets: Vec<Pocket>) -> InventoryState {
    let n = pockets.len() as i32;
    InventoryState { entity_id, pockets, inventory_index: 0, cargo_index: n, owner_entity_id: 1, player_owner_entity_id: 1 }
}

fn held(inv: &InventoryState, id: i32) -> i32 {
    inv.pockets.iter().filter_map(|p| p.contents).filter(|c| c.item_id == id).map(|c| c.quantity).sum()
}

#[test]
fn remove_input_stacks_takes_only_consumed_inputs() {
    let mut inv = inventory(1, vec![pocket(100, Some(item(1, 5))), pocket(100, Some(item(2, 3)))]);
    let inputs = vec![
        InputItemStack { item_id: 1, item_type: ItemType::Item, quantity: 2 },
        InputItemStack { item_id: 2, item_type: ItemType::Item, quantity: 3 },
    ];
    let r = inv.remove_input_stacks(&inputs, &vec![true, false]);
    assert_eq!(r, RemoveItemResult { success: true, inventory_changed: true });
    assert_eq!(held(&inv, 1), 3);
    assert_eq!(held(&inv, 2), 3);
}

#[test]
fn remove_input_stacks_needs_every_input_present() {
    let mut inv = inventory(1, vec![pocket(100, Some(item(2, 3)))]);
    let inputs = vec![InputItemStack { item_id: 2, item_type: ItemType::Item, quantity: 4 }];
    let r = inv.remove_input_stacks(&inputs, &vec![false]);
    assert_eq!(r, RemoveItemResult { success: false, inventory_changed: false });
    assert_eq!(held(&inv, 2), 3);
}

#[test]
fn remove_input_stacks_with_nothing_consumed_changes_nothing() {
    let mut inv = inventory(1, vec![pocket(100, Some(item(2, 3)))]);
    let inputs = vec![InputItemStack { item_id: 2, item_type: ItemType::Item, quantity: 3 }];
    let r = inv.remove_input_stacks(&inputs, &vec![false]);
    assert_eq!(r, RemoveItemResult { success: true, inventory_changed: false });
    assert_eq!(held(&inv, 2), 3);
}

#[test]
fn exclude_used_items_sets_worn_tools_aside() {
    let mut inv = inventory(1, vec![pocket(100, Some(tool(7, 3))), pocket(100, Some(tool(7, 10))), pocket(100, Some(item(1, 2)))]);
    let original = inv.pockets.clone();
    let full: HashMap<i32, i32> = [(7, 10)].into_iter().collect();
    let used = inv.exclude_used_items(&full);
    assert_eq!(inv.pockets[0].contents, None);
    assert_eq!(inv.pockets[1].contents, Some(tool(7, 10)));
    assert_eq!(inv.pockets[2].contents, Some(item(1, 2)));
    assert_eq!(used.pockets[0].contents, Some(tool(7, 3)));
    assert_eq!(used.pockets[1].contents, None);
    assert_eq!(used.pockets[2].contents, None);
    inv.merge_used_items(&used);
    assert_eq!(inv.pockets, original);
}

#[test]
fn coins_come_out_of_the_wallet_first_then_the_inventory() {
    let mut inv = inventory(1, vec![pocket(1000, Some(coins(50)))]);
    let mut wallet = inventory(2, vec![pocket(1000, Some(coins(30)))]);
    let none = HashMap::new();
    let r = remove_stacks_from_player_inventory(&mut inv, &mut wallet, &vec![coins(40)], false, &none);
    assert_eq!(r, StackRemoval { success: true, inventory_updated: true, wallet_updated: true });
    assert_eq!(held(&inv, HEX_COIN_ID), 40);
    assert_eq!(wallet.pockets[0].contents, None);
}

#[test]
fn a_wallet_that_holds_enough_pays_alone() {
    let mut inv = inventory(1, vec![pocket(1000, Some(coins(50)))]);
    let mut wallet = inventory(2, vec![pocket(1000, Some(coins(30)))]);
    let none = HashMap::new();
    let r = remove_stacks_from_player_inventory(&mut inv, &mut wallet, &vec![coins(20)], false, &none);
    assert_eq!(r, StackRemoval { success: true, inventory_updated: false, wallet_updated: true });
    assert_eq!(held(&inv, HEX_COIN_ID), 50);
    assert_eq!(held(&wallet, HEX_COIN_ID), 10);
}

#[test]
fn paying_fails_as_a_whole() {
    let mut inv = inventory(1, vec![pocket(100, Some(item(5, 1))), pocket(1000, Some(coins(5)))]);
    let mut wallet = inventory(2, vec![pocket(1000, Some(coins(3)))]);
    let none = HashMap::new();
    let before = (inv.pockets.clone(), wallet.pockets.clone());
    let r = remove_stacks_from_player_inventory(&mut inv, &mut wallet, &vec![item(5, 1), coins(20)], false, &none);
    assert_eq!(r, StackRemoval { success: false, inventory_updated: false, wallet_updated: false });
    assert_eq!((inv.pockets, wallet.pockets), before);
}

#[test]
fn full_durability_payment_spares_worn_tools() {
    let mut inv = inventory(1, vec![pocket(100, Some(tool(7, 3))), pocket(100, Some(tool(7, 10)))]);
    let mut wallet = inventory(2, vec![pocket(1000, None)]);
    let full: HashMap<i32, i32> = [(7, 10)].into_iter().collect();
    let r = remove_stacks_from_player_inventory(&mut inv, &mut wallet, &vec![item(7, 1)], true, &full);
    assert!(r.success && r.inventory_updated && !r.wallet_updated);
    assert_eq!(inv.pockets[0].contents, Some(tool(7, 3)));
    assert_eq!(inv.pockets[1].contents, None);
}

#[test]
fn withdraw_reaches_into_nearby_deployables() {
    let mut wallet = inventory(1, vec![pocket(1000, None)]);
    let mut inv = inventory(2, vec![pocket(100, Some(item(1, 2)))]);
    let mut deployables = vec![inventory(3, vec![pocket(100, Some(item(1, 5)))])];
    let r = withdraw_from_player_inventory_and_nearby_deployables(&mut wallet, &mut inv, &mut deployables, &vec![item(1, 4)]);
    let changes = r.unwrap();
    assert!(!changes.wallet_changed && changes.inventory_changed);
    assert_eq!(changes.deployables_changed, vec![true]);
    assert_eq!(held(&inv, 1), 0);
    assert_eq!(held(&deployables[0], 1), 3);
}

#[test]
fn withdraw_from_the_player_alone_leaves_deployables_be() {
    let mut wallet = inventory(1, vec![pocket(1000, None)]);
    let mut inv = inventory(2, vec![pocket(100, Some(item(1, 5)))]);
    let mut deployables = vec![inventory(3, vec![pocket(100, Some(item(1, 5)))])];
    let changes = withdraw_from_player_inventory_and_nearby_deployables(&mut wallet, &mut inv, &mut deployables, &vec![item(1, 4)])
        .unwrap();
    assert!(changes.inventory_changed);
    assert_eq!(changes.deployables_changed, vec![false]);
    assert_eq!(held(&inv, 1), 1);
    assert_eq!(held(&deployables[0], 1), 5);
}

#[test]
fn withdraw_fails_without_enough_anywhere() {
    let mut wallet = inventory(1, vec![pocket(1000, None)]);
    let mut inv = inventory(2, vec![pocket(100, Some(item(1, 2)))]);
    let mut deployables = vec![inventory(3, vec![pocket(100, Some(item(1, 1)))])];
    let r = withdraw_from_player_inventory_and_nearby_deployables(&mut wallet, &mut inv, &mut deployables, &vec![item(1, 4)]);
    assert_eq!(r.unwrap_err(), TransferError::MissingItems);
    assert_eq!(held(&inv, 1), 2);
    assert_eq!(held(&deployables[0], 1), 1);
    let mut alone: Vec<InventoryState> = Vec::new();
    let r = withdraw_from_player_inventory_and_nearby_deployables(&mut wallet, &mut inv, &mut alone, &vec![item(1, 4)]);
    assert_eq!(r.unwrap_err(), TransferError::MissingItems);
    assert_eq!(TransferError::MissingItems.message(), "You don't have the required items.");
}

#[test]
fn full_durability_withdraw_keeps_worn_tools() {
    let mut wallet = inventory(1, vec![pocket(1000, None)]);
    let mut inv = inventory(2, vec![pocket(100, Some(tool(7, 2)))]);
    let mut deployables = vec![inventory(3, vec![pocket(100, Some(tool(7, 10)))])];
    let full: HashMap<i32, i32> = [(7, 10)].into_iter().collect();
    let changes = withdraw_full_durability_from_player_inventory_and_nearby_deployables(
        &mut wallet,
        &mut inv,
        &mut deployables,
        &vec![item(7, 1)],
        &full,
    )
    .unwrap();
    assert!(!changes.inventory_changed);
    assert_eq!(changes.deployables_changed, vec![true]);
    assert_eq!(inv.pockets[0].contents, Some(tool(7, 2)));
    assert_eq!(deployables[0].pockets[0].contents, None);
}

#[test]
fn deposit_fills_wallet_inventory_then_deployables() {
    let mut wallet = inventory(1, vec![pocket(1000, None)]);
    let mut inv = inventory(2, vec![pocket(100, None)]);
    let mut deployables = vec![inventory(3, vec![pocket(100, None)])];
    let out = deposit_to_player_inventory_and_nearby_deployables_and_get_overflow_stack(
        &mut wallet,
        &mut inv,
        &mut deployables,
        &vec![coins(5), item(2, 15)],
        &vec![Some(1), Some(10)],
        true,
        false,
    );
    assert!(out.overflow.is_empty());
    assert!(out.changes.wallet_changed && out.changes.inventory_changed);
    assert_eq!(out.changes.deployables_changed, vec![true]);
    assert_eq!(wallet.pockets[0].contents, Some(coins(5)));
    assert_eq!(inv.pockets[0].contents, Some(item(2, 10)));
    assert_eq!(deployables[0].pockets[0].contents, Some(item(2, 5)));
}

#[test]
fn deposit_can_fill_deployables_before_the_inventory() {
    let mut wallet = inventory(1, vec![pocket(1000, None)]);
    let mut inv = inventory(2, vec![pocket(100, None)]);
    let mut deployables = vec![inventory(3, vec![pocket(100, None)])];
    let out = deposit_to_player_inventory_and_nearby_deployables_and_get_overflow_stack(
        &mut wallet,
        &mut inv,
        &mut deployables,
        &vec![item(2, 4)],
        &vec![Some(10)],
        true,
        true,
    );
    assert!(out.overflow.is_empty());
    assert!(!out.changes.inventory_changed);
    assert_eq!(deployables[0].pockets[0].contents, Some(item(2, 4)));
    assert_eq!(inv.pockets[0].contents, None);
}

#[test]
fn deposit_hands_back_what_does_not_fit_last_stack_first() {
    let mut wallet = inventory(1, vec![pocket(1000, None)]);
    let mut inv = inventory(2, vec![pocket(100, Some(item(9, 10)))]);
    let mut deployables: Vec<InventoryState> = Vec::new();
    let out = deposit_to_player_inventory_and_nearby_deployables_and_get_overflow_stack(
        &mut wallet,
        &mut inv,
        &mut deployables,
        &vec![item(2, 3), item(3, 4), item(4, 1)],
        &vec![Some(10), Some(10), None],
        true,
        false,
    );
    assert_eq!(out.overflow, vec![item(4, 1), item(3, 4), item(2, 3)]);
    assert!(!out.changes.inventory_changed && !out.changes.wallet_changed);
}

#[test]
fn deposit_without_the_player_starts_at_the_first_deployable() {
    let mut wallet = inventory(1, vec![pocket(1000, None)]);
    let mut inv = inventory(2, vec![pocket(100, None)]);
    let mut deployables = vec![inventory(3, vec![pocket(100, None)]), inventory(4, vec![pocket(100, None)])];
    let out = deposit_to_player_inventory_and_nearby_deployables_and_get_overflow_stack(
        &mut wallet,
        &mut inv,
        &mut deployables,
        &vec![item(2, 4)],
        &vec![Some(10)],
        false,
        false,
    );
    assert!(out.overflow.is_empty());
    assert_eq!(out.changes.deployables_changed, vec![false, true]);
    assert_eq!(deployables[1].pockets[0].contents, Some(item(2, 4)));
    assert_eq!(inv.pockets[0].contents, None);
}

#[test]
fn deposit_keeps_every_item_between_containers_and_overflow() {
    let mut wallet = inventory(1, vec![pocket(1000, None)]);
    let mut inv = inventory(2, vec![pocket(100, Some(item(2, 4)))]);
    let mut deployables = vec![inventory(3, vec![pocket(100, None)])];
    let stacks = vec![item(2, 14), item(3, 12)];
    let out = deposit_to_player_inventory_and_nearby_deployables_and_get_overflow_stack(
        &mut wallet,
        &mut inv,
        &mut deployables,
        &stacks,
        &vec![Some(10), Some(10)],
        true,
        false,
    );
    let overflow_of = |id: i32| out.overflow.iter().filter(|s| s.item_id == id).map(|s| s.quantity).sum::<i32>();
    for id in [2, 3] {
        let before: i32 = if id == 2 { 4 } else { 0 };
        let given: i32 = stacks.iter().filter(|s| s.item_id == id).map(|s| s.quantity).sum();
        assert_eq!(held(&wallet, id) + held(&inv, id) + held(&deployables[0], id) + overflow_of(id), before + given);
    }
}

#[test]
fn withdrawal_takes_exactly_what_is_asked_from_the_row() {
    let mut wallet = inventory(1, vec![pocket(1000, None)]);
    let mut inv = inventory(2, vec![pocket(100, Some(item(1, 2))), pocket(100, Some(item(2, 5)))]);
    let mut deployables = vec![inventory(3, vec![pocket(100, Some(item(1, 5)))]), inventory(4, vec![pocket(100, Some(item(1, 1)))])];
    let r = withdraw_from_player_inventory_and_nearby_deployables(&mut wallet, &mut inv, &mut deployables, &vec![item(1, 7), item(2, 1)]);
    assert!(r.is_ok());
    let total = |id: i32| held(&inv, id) + held(&deployables[0], id) + held(&deployables[1], id);
    assert_eq!(total(1), 8 - 7);
    assert_eq!(total(2), 4);
}
