use bitcraft_game::inventory::{InventoryState, RemoveItemResult};
use bitcraft_game::item_stack::{ItemStack, ItemType, Pocket, HEX_COIN_ID};

fn item(id: i32, quantity: i32) -> ItemStack {
    ItemStack { item_id: id, item_type: ItemType::Item, quantity, durability: None }
}

fn cargo(id: i32, quantity: i32) -> ItemStack {
    ItemStack { item_id: id, item_type: ItemType::Cargo, quantity, durability: None }
}

fn pocket(volume: i32, contents: Option<ItemStack>) -> Pocket {
    Pocket { volume, contents, locked: false }
}

fn inventory(pockets: Vec<Pocket>, cargo_index: i32) -> InventoryState {
    InventoryState {
        entity_id: 7,
        pockets,
        inventory_index: 0,
        cargo_index,
        owner_entity_id: 8,
        player_owner_entity_id: 9,
    }
}

fn quantity_of(inv: &InventoryState, id: i32, ty: ItemType) -> i32 {
    let mut total = 0;
    for p in &inv.pockets {
        if let Some(c) = p.contents {
            if c.item_id == id && c.item_type == ty {
                total += c.quantity;
            }
        }
    }
    total
}

#[test]
fn can_fit_quantity_counts_whole_items_left() {
    let p = pocket(100, Some(item(5, 3)));
    assert_eq!(p.can_fit_quantity(10), 7);
    assert_eq!(pocket(100, None).can_fit_quantity(10), 10);
    assert_eq!(pocket(100, Some(item(5, 10))).can_fit_quantity(10), 0);
    assert_eq!(pocket(95, None).can_fit_quantity(10), 9);
}

#[test]
fn pocket_kinds_split_at_cargo_index() {
    let inv = inventory(vec![pocket(100, None), pocket(100, None), pocket(6000, None)], 2);
    assert!(!inv.is_pocket_cargo(1));
    assert!(inv.is_pocket_cargo(2));
}

#[test]
fn next_free_pockets_skip_occupied_ones() {
    let inv = inventory(
        vec![pocket(100, Some(item(1, 1))), pocket(100, None), pocket(6000, Some(cargo(3, 1))), pocket(6000, None)],
        2,
    );
    assert_eq!(inv.next_free_item_pocket(), Some(1));
    assert_eq!(inv.next_free_cargo_pocket(), Some(3));
    assert_eq!(inv.next_free_pocket(ItemType::Item), Some(1));
    assert_eq!(inv.next_free_pocket(ItemType::Cargo), Some(3));
    let full = inventory(vec![pocket(100, Some(item(1, 1)))], 1);
    assert_eq!(full.next_free_item_pocket(), None);
}

#[test]
fn pocket_contents_and_emptiness() {
    let inv = inventory(vec![pocket(100, Some(item(4, 2))), pocket(100, None)], 2);
    assert_eq!(inv.get_pocket_contents(0), Some(item(4, 2)));
    assert_eq!(inv.get_pocket_contents(5), None);
    assert!(!inv.is_pocket_empty(0));
    assert!(inv.is_pocket_empty(1));
    assert_eq!(inv.get_at(0), Some(&item(4, 2)));
    assert_eq!(inv.get_at(1), None);
}

#[test]
fn set_at_stores_positive_stacks_and_unlocks() {
    let mut inv = inventory(vec![Pocket { volume: 100, contents: None, locked: true }], 1);
    inv.set_at(0, Some(item(2, 5)));
    assert_eq!(inv.pockets[0], Pocket { volume: 100, contents: Some(item(2, 5)), locked: false });
    inv.set_at(0, Some(item(2, 0)));
    assert_eq!(inv.pockets[0].contents, None);
    inv.set_at(3, Some(item(2, 5)));
    assert_eq!(inv.pockets.len(), 1);
}

#[test]
fn remove_at_empties_the_pocket() {
    let mut inv = inventory(vec![pocket(100, Some(item(2, 5)))], 1);
    assert_eq!(inv.remove_at(0), Some(item(2, 5)));
    assert_eq!(inv.pockets[0].contents, None);
    assert_eq!(inv.remove_at(0), None);
}

#[test]
fn remove_quantity_at_takes_part_of_a_stack() {
    let mut inv = inventory(vec![pocket(100, Some(item(2, 5)))], 1);
    assert_eq!(inv.remove_quantity_at(0, 2), Some(item(2, 2)));
    assert_eq!(inv.pockets[0].contents, Some(item(2, 3)));
    assert_eq!(inv.remove_quantity_at(0, 4), None);
    assert_eq!(inv.remove_quantity_at(0, 3), Some(item(2, 3)));
    assert_eq!(inv.pockets[0].contents, None);
}

#[test]
fn lowest_count_prefers_the_last_of_equal_quantities() {
    let inv = inventory(
        vec![
            pocket(100, Some(item(1, 5))),
            pocket(100, Some(item(1, 3))),
            pocket(100, Some(item(1, 3))),
            pocket(100, Some(item(1, 7))),
            pocket(100, Some(item(2, 1))),
        ],
        5,
    );
    assert_eq!(inv.pocket_with_lowest_count(1), 2);
    assert_eq!(inv.pocket_with_lowest_count(9), -1);
}

#[test]
fn locking_and_unlocking_pockets() {
    let mut inv = inventory(vec![pocket(100, None), pocket(100, None)], 2);
    inv.lock_pocket(0);
    inv.lock_pocket(1);
    assert!(inv.pockets[0].locked && inv.pockets[1].locked);
    inv.unlock_pocket(0);
    assert!(!inv.pockets[0].locked && inv.pockets[1].locked);
    inv.unlock_all_pockets();
    assert!(!inv.pockets[1].locked);
}

#[test]
fn empty_means_no_positive_quantity() {
    assert!(inventory(vec![pocket(100, None), pocket(100, Some(item(1, 0)))], 2).is_empty());
    assert!(!inventory(vec![pocket(100, Some(item(1, 1)))], 1).is_empty());
}

#[test]
fn coins_sum_hex_coin_items_only() {
    let inv = inventory(
        vec![
            pocket(100, Some(item(HEX_COIN_ID, 30))),
            pocket(100, Some(item(2, 50))),
            pocket(100, Some(item(HEX_COIN_ID, 12))),
            pocket(6000, Some(cargo(HEX_COIN_ID, 4))),
        ],
        3,
    );
    assert_eq!(inv.coins(), 42);
}

#[test]
fn contents_lists_keep_pocket_order() {
    let inv = inventory(vec![pocket(100, Some(item(1, 2))), pocket(100, None), pocket(100, Some(item(3, 0)))], 3);
    assert_eq!(inv.get_all_content(), vec![item(1, 2), item(3, 0)]);
    assert_eq!(inv.as_item_stacks(), vec![item(1, 2)]);
}

#[test]
fn merge_used_items_puts_stacks_back() {
    let mut inv = inventory(vec![pocket(100, None), pocket(100, Some(item(1, 1)))], 2);
    let used = inventory(vec![pocket(100, Some(item(9, 1))), pocket(100, None)], 2);
    inv.merge_used_items(&used);
    assert_eq!(inv.pockets[0].contents, Some(item(9, 1)));
    assert_eq!(inv.pockets[1].contents, Some(item(1, 1)));
}

#[test]
fn add_pockets_appends_empty_ones() {
    let mut inv = inventory(vec![pocket(100, Some(item(1, 1)))], 1);
    inv.add_pockets(2, 50);
    assert_eq!(inv.pockets.len(), 3);
    assert_eq!(inv.pockets[2], pocket(50, None));
    inv.add_pockets(-1, 50);
    assert_eq!(inv.pockets.len(), 3);
}

#[test]
fn create_with_pockets_fills_from_the_stacks() {
    let inv = InventoryState::create_with_pockets(1, 3, 100, 6000, 0, 2, 5, 6, Some(vec![item(4, 4)]));
    assert_eq!(inv.pockets, vec![pocket(100, Some(item(4, 4))), pocket(100, None), pocket(6000, None)]);
    assert_eq!((inv.entity_id, inv.cargo_index, inv.owner_entity_id, inv.player_owner_entity_id), (1, 2, 5, 6));
    let plain = InventoryState::create_with_pockets(1, 2, 100, 6000, 0, 1, 5, 6, None);
    assert_eq!(plain.pockets, vec![pocket(100, None), pocket(6000, None)]);
}

#[test]
fn double_repeats_each_half_empty() {
    let mut inv = inventory(vec![pocket(100, Some(item(1, 1))), pocket(6000, Some(cargo(2, 1)))], 1);
    inv.inventory_index = 3;
    inv.double();
    assert_eq!(
        inv.pockets,
        vec![pocket(100, Some(item(1, 1))), pocket(100, None), pocket(6000, Some(cargo(2, 1))), pocket(6000, None)]
    );
    assert_eq!(inv.cargo_index, 2);
    assert_eq!(inv.inventory_index, 6);
}

#[test]
fn has_compares_requests_with_holdings_by_id() {
    let inv = inventory(vec![pocket(100, Some(item(1, 3))), pocket(100, Some(item(1, 2)))], 2);
    assert!(inv.has(&vec![item(1, 4)]));
    assert!(inv.has(&vec![item(1, 2), item(1, 3)]));
    assert!(!inv.has(&vec![item(1, 4), item(1, 2)]));
    assert!(!inv.has(&vec![item(2, 1)]));
}

#[test]
fn remove_partial_takes_what_it_can_in_pocket_order() {
    let mut inv = inventory(vec![pocket(100, Some(item(1, 3))), pocket(100, Some(item(1, 2)))], 2);
    let mut wanted = item(1, 4);
    assert!(inv.remove_partial(&mut wanted));
    assert_eq!(wanted.quantity, 0);
    assert_eq!(inv.pockets[0].contents, None);
    assert_eq!(inv.pockets[1].contents, Some(item(1, 1)));
    let mut more = item(1, 5);
    assert!(inv.remove_partial(&mut more));
    assert_eq!(more.quantity, 4);
    let mut none = item(1, 0);
    assert!(!inv.remove_partial(&mut none));
}

#[test]
fn remove_drains_the_smallest_stack_first() {
    let mut inv = inventory(vec![pocket(100, Some(item(1, 5))), pocket(100, Some(item(1, 2)))], 2);
    assert!(inv.remove(&vec![item(1, 3)]));
    assert_eq!(inv.pockets[0].contents, Some(item(1, 4)));
    assert_eq!(inv.pockets[1].contents, None);
}

#[test]
fn remove_is_all_or_nothing() {
    let mut inv = inventory(vec![pocket(100, Some(item(1, 5))), pocket(100, Some(item(2, 2)))], 2);
    let before = inv.pockets.clone();
    assert!(!inv.remove(&vec![item(1, 1), item(2, 3)]));
    assert_eq!(inv.pockets, before);
    assert!(!inv.remove(&vec![item(1, -1)]));
    assert_eq!(inv.pockets, before);
    assert!(inv.remove(&vec![item(1, 5), item(2, 2), item(3, 0)]));
    assert!(inv.is_empty());
}

#[test]
fn add_partial_tops_up_then_fills_empty_pockets() {
    let mut inv = inventory(vec![pocket(100, None), pocket(100, Some(item(1, 8))), pocket(6000, None)], 2);
    let mut stack = item(1, 7);
    assert!(inv.add_partial(&mut stack, 10));
    assert_eq!(stack.quantity, 0);
    assert_eq!(inv.pockets[1].contents, Some(item(1, 10)));
    assert_eq!(inv.pockets[0].contents, Some(item(1, 5)));
    assert_eq!(inv.pockets[2].contents, None);
}

#[test]
fn add_partial_leaves_what_does_not_fit() {
    let mut inv = inventory(vec![pocket(100, None), pocket(6000, None)], 1);
    let mut stack = item(1, 15);
    assert!(inv.add_partial(&mut stack, 10));
    assert_eq!(stack.quantity, 5);
    assert_eq!(inv.pockets[0].contents, Some(item(1, 10)));
    let mut crate_stack = cargo(4, 2);
    assert!(inv.add_partial(&mut crate_stack, 6000));
    assert_eq!(crate_stack.quantity, 1);
    assert_eq!(inv.pockets[1].contents, Some(cargo(4, 1)));
}

#[test]
fn add_partial_does_not_merge_stacks_with_durability() {
    let mut inv = inventory(vec![pocket(100, Some(ItemStack { durability: Some(3), ..item(1, 1) })), pocket(100, None)], 2);
    let mut stack = item(1, 2);
    assert!(inv.add_partial(&mut stack, 10));
    assert_eq!(inv.pockets[1].contents, Some(item(1, 2)));
    assert_eq!(inv.pockets[0].contents.unwrap().quantity, 1);
}

#[test]
fn add_is_whole_or_nothing() {
    let mut inv = inventory(vec![pocket(100, None)], 1);
    let before = inv.pockets.clone();
    assert!(!inv.add(item(1, 11), 10));
    assert_eq!(inv.pockets, before);
    assert!(inv.add(item(1, 0), 10));
    assert_eq!(inv.pockets, before);
    assert!(!inv.add(item(1, -2), 10));
    assert!(inv.add(item(1, 10), 10));
    assert_eq!(inv.pockets[0].contents, Some(item(1, 10)));
}

#[test]
fn fits_and_fits_all_predict_add() {
    let inv = inventory(vec![pocket(100, None), pocket(100, None)], 2);
    assert!(inv.fits(item(1, 20), 10));
    assert!(!inv.fits(item(1, 21), 10));
    assert!(inv.fits_all(&vec![item(1, 10), item(2, 10)], &vec![10, 10]));
    assert!(!inv.fits_all(&vec![item(1, 10), item(2, 10), item(3, 1)], &vec![10, 10, 10]));
    let full = inventory(vec![pocket(100, Some(item(5, 10)))], 1);
    assert!(!full.fits_all(&vec![item(1, 1)], &vec![10]));
    assert!(full.fits_all_after_remove(&vec![item(1, 1)], &vec![10], &vec![item(5, 10)]));
}

#[test]
fn add_multiple_adds_everything_or_nothing() {
    let mut inv = inventory(vec![pocket(100, None), pocket(100, None)], 2);
    let before = inv.pockets.clone();
    assert!(!inv.add_multiple(&vec![item(1, 10), item(2, 10), item(3, 1)], &vec![10, 10, 10]));
    assert_eq!(inv.pockets, before);
    assert!(inv.add_multiple(&vec![item(1, 10), item(2, 5)], &vec![10, 10]));
    assert_eq!(inv.pockets[0].contents, Some(item(1, 10)));
    assert_eq!(inv.pockets[1].contents, Some(item(2, 5)));
}

#[test]
fn add_multiple_partial_leaves_each_stack_with_its_rest() {
    let mut inv = inventory(vec![pocket(100, None)], 1);
    let mut stacks = vec![item(1, 12), item(2, 3)];
    inv.add_multiple_partial(&mut stacks, &vec![10, 10]);
    assert_eq!(stacks, vec![item(1, 2), item(2, 3)]);
    assert_eq!(inv.pockets[0].contents, Some(item(1, 10)));
}

#[test]
fn add_multiple_with_overflow_returns_what_did_not_fit() {
    let mut inv = inventory(vec![pocket(100, None), pocket(100, None)], 2);
    let overflow = inv.add_multiple_with_overflow(&vec![item(1, 12), item(2, 3), item(3, 4)], &vec![10, 10, 10]);
    assert_eq!(overflow, vec![item(2, 3), item(3, 4)]);
    assert_eq!(quantity_of(&inv, 1, ItemType::Item), 12);
    assert_eq!(quantity_of(&inv, 2, ItemType::Item), 0);
}

#[test]
fn add_at_fills_the_chosen_pocket_first() {
    let mut inv = inventory(vec![pocket(100, None), pocket(100, Some(item(1, 8))), pocket(6000, None)], 2);
    assert!(inv.add_at(1, item(1, 5), 10));
    assert_eq!(inv.pockets[1].contents, Some(item(1, 10)));
    assert_eq!(inv.pockets[0].contents, Some(item(1, 3)));
}

#[test]
fn add_at_refuses_wrong_kinds_and_other_items() {
    let mut inv = inventory(vec![pocket(100, Some(item(2, 1))), pocket(6000, None)], 1);
    let before = inv.pockets.clone();
    assert!(!inv.add_at(1, item(1, 1), 10));
    assert!(!inv.add_at(0, cargo(1, 1), 10));
    assert!(!inv.add_at(0, item(1, 1), 10));
    assert_eq!(inv.pockets, before);
    assert!(inv.add_at(0, item(1, 0), 10));
    assert!(!inv.add_at(0, item(2, 20), 10));
    assert_eq!(inv.pockets, before);
}

#[test]
fn remove_item_result_records_success_and_change() {
    let r = RemoveItemResult { success: true, inventory_changed: false };
    assert!(r.success && !r.inventory_changed);
}

#[test]
fn clone_keeps_everything() {
    let inv = inventory(vec![pocket(100, Some(item(1, 1)))], 1);
    let copy = inv.clone();
    assert_eq!(copy.pockets, inv.pockets);
    assert_eq!((copy.entity_id, copy.cargo_index), (inv.entity_id, inv.cargo_index));
}

#[test]
fn added_stack_can_be_removed_again() {
    let mut inv = inventory(vec![pocket(100, Some(item(1, 4))), pocket(100, None), pocket(100, Some(item(2, 1)))], 3);
    let start = (quantity_of(&inv, 1, ItemType::Item), quantity_of(&inv, 2, ItemType::Item));
    assert!(inv.add(item(1, 9), 10));
    assert_eq!(quantity_of(&inv, 1, ItemType::Item), start.0 + 9);
    assert!(inv.remove(&vec![item(1, 9)]));
    assert_eq!((quantity_of(&inv, 1, ItemType::Item), quantity_of(&inv, 2, ItemType::Item)), start);
}

#[test]
fn remove_takes_exactly_what_is_asked() {
    let mut inv = inventory(
        vec![pocket(100, Some(item(1, 4))), pocket(100, Some(item(1, 6))), pocket(100, Some(item(2, 5)))],
        3,
    );
    assert!(inv.remove(&vec![item(1, 3), item(2, 2), item(1, 4)]));
    assert_eq!(quantity_of(&inv, 1, ItemType::Item), 3);
    assert_eq!(quantity_of(&inv, 2, ItemType::Item), 3);
}

#[test]
fn add_partial_moves_exactly_what_it_inserts() {
    let mut inv = inventory(vec![pocket(100, Some(item(1, 4))), pocket(100, None), pocket(100, Some(item(2, 1)))], 3);
    let mut stack = item(1, 30);
    inv.add_partial(&mut stack, 10);
    assert_eq!(quantity_of(&inv, 1, ItemType::Item) + stack.quantity, 4 + 30);
    assert_eq!(quantity_of(&inv, 2, ItemType::Item), 1);
    assert_eq!(stack.quantity, 14);
}

#[test]
fn item_stacks_are_all_content_with_positive_quantity() {
    let inv = inventory(
        vec![pocket(100, Some(item(1, 0))), pocket(100, None), pocket(100, Some(item(2, 3))), pocket(100, Some(cargo(5, 1)))],
        3,
    );
    let all = inv.get_all_content();
    assert_eq!(all, vec![item(1, 0), item(2, 3), cargo(5, 1)]);
    let positive: Vec<ItemStack> = all.into_iter().filter(|c| c.quantity > 0).collect();
    assert_eq!(inv.as_item_stacks(), positive);
}

#[test]
fn adding_doubles_the_inventory_until_the_stack_fits() {
    let mut inv = inventory(vec![pocket(10, Some(item(1, 1))), pocket(10, Some(item(2, 1)))], 2);
    inv.add_doubling_until_fits(item(3, 4), 2);
    assert_eq!(inv.pockets.len(), 4);
    assert_eq!(inv.cargo_index, 4);
    assert_eq!(inv.pockets[2].contents, Some(item(3, 4)));
    assert_eq!(quantity_of(&inv, 1, ItemType::Item), 1);

    let mut roomy = inventory(vec![pocket(10, None)], 1);
    roomy.add_doubling_until_fits(item(3, 4), 2);
    assert_eq!(roomy.pockets.len(), 1);
    assert_eq!(roomy.cargo_index, 1);
    assert_eq!(roomy.pockets[0].contents, Some(item(3, 4)));
}
