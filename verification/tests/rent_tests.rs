use bitcraft_game::inventory::InventoryState;
use bitcraft_game::item_stack::{ItemStack, Pocket, HEX_COIN_ID};
use bitcraft_game::rent::{RentCollection, RentError, RentState};

fn rental(white_list: Vec<u64>, daily_rent: u32, paid_rent: u32) -> RentState {
    RentState {
        entity_id: 1,
        claim_entity_id: 2,
        white_list,
        daily_rent,
        paid_rent,
        active: true,
        defaulted: false,
        eviction_timestamp: None,
    }
}

fn purse(entity_id: u64, coins: i32) -> InventoryState {
    let contents = if coins > 0 { Some(ItemStack::hex_coins(coins)) } else { None };
    InventoryState {
        entity_id,
        pockets: vec![Pocket { volume: 100000, contents, locked: false }],
        inventory_index: 0,
        cargo_index: 1,
        owner_entity_id: 0,
        player_owner_entity_id: 0,
    }
}

fn coins_in(inv: &InventoryState) -> i32 {
    inv.pockets.iter().filter_map(|p| p.contents).filter(|c| c.item_id == HEX_COIN_ID).map(|c| c.quantity).sum()
}

#[test]
fn the_renter_is_first_on_the_white_list() {
    let r = rental(vec![10, 11], 5, 0);
    assert!(r.is_renter(10));
    assert!(!r.is_renter(11));
    assert!(rental(vec![], 5, 0).is_renter(0));
    assert!(r.is_tenant(11));
    assert!(!r.is_tenant(12));
}

#[test]
fn clear_keeps_the_daily_rent() {
    let mut r = rental(vec![10, 11], 5, 7);
    r.defaulted = true;
    r.eviction_timestamp = Some(1_000_000);
    r.clear();
    assert!(r.white_list.is_empty());
    assert!(!r.active && !r.defaulted);
    assert_eq!(r.paid_rent, 0);
    assert_eq!(r.eviction_timestamp, None);
    assert_eq!(r.daily_rent, 5);
}

#[test]
fn paying_rent_is_capped_at_the_deposit_limit() {
    let mut r = rental(vec![10], 5, 12);
    let mut inv = purse(1, 100);
    let mut wallet = purse(2, 0);
    let paid = r.pay_rent(&mut inv, &mut wallet, 50, 3);
    assert!(paid.is_ok());
    assert_eq!(r.paid_rent, 15);
    assert_eq!(coins_in(&inv), 97);
}

#[test]
fn paying_rent_at_capacity_is_refused() {
    let mut r = rental(vec![10], 5, 15);
    let mut inv = purse(1, 100);
    let mut wallet = purse(2, 0);
    assert_eq!(r.pay_rent(&mut inv, &mut wallet, 1, 3).unwrap_err(), RentError::AtMaximumCapacity);
    assert_eq!(coins_in(&inv), 100);
}

#[test]
fn paying_rent_without_funds_is_refused() {
    let mut r = rental(vec![10], 5, 0);
    let mut inv = purse(1, 2);
    let mut wallet = purse(2, 1);
    assert_eq!(r.pay_rent(&mut inv, &mut wallet, 5, 3).unwrap_err(), RentError::NotEnoughFunds);
    assert_eq!(r.paid_rent, 0);
    assert_eq!((coins_in(&inv), coins_in(&wallet)), (2, 1));
}

#[test]
fn eviction_fee_comes_out_of_wallet_and_inventory() {
    let r = rental(vec![10], 5, 0);
    let mut inv = purse(1, 10);
    let mut wallet = purse(2, 4);
    assert!(r.pay_remaining_eviction_fee(&mut inv, &mut wallet, 20, 6).is_ok());
    assert_eq!((coins_in(&inv), coins_in(&wallet)), (8, 0));
    assert_eq!(
        r.pay_remaining_eviction_fee(&mut inv, &mut wallet, 20, 9).unwrap_err(),
        RentError::EvictionFeeUnpaid { initial_amount: 20 }
    );
}

#[test]
fn collecting_paid_rent_adds_coins_to_the_wallet() {
    let r = rental(vec![10], 5, 12);
    let mut wallet = purse(2, 3);
    assert!(r.collect_paid_rent(&mut wallet, 1).is_ok());
    assert_eq!(coins_in(&wallet), 15);
    assert_eq!(r.paid_rent, 12);
    let nothing = rental(vec![10], 5, 0);
    assert!(nothing.collect_paid_rent(&mut wallet, 1).is_ok());
    let mut tiny = purse(3, 0);
    tiny.pockets[0].volume = 5;
    assert_eq!(r.collect_paid_rent(&mut tiny, 1).unwrap_err(), RentError::NoRoomForCoins);
}

#[test]
fn daily_collection_moves_a_day_of_rent() {
    let mut r = rental(vec![10], 5, 12);
    assert_eq!(r.collect_daily_rent(), RentCollection::Collected { treasury_credit: 5 });
    assert_eq!(r.paid_rent, 7);
    assert!(!r.defaulted);
}

#[test]
fn daily_collection_defaults_once() {
    let mut r = rental(vec![10], 5, 3);
    assert_eq!(r.collect_daily_rent(), RentCollection::Defaulted);
    assert!(r.defaulted);
    assert_eq!(r.collect_daily_rent(), RentCollection::Skipped);
    assert_eq!(r.paid_rent, 3);
    r.paid_rent = 5;
    assert_eq!(r.collect_daily_rent(), RentCollection::Collected { treasury_credit: 5 });
    assert!(!r.defaulted);
}

#[test]
fn rentals_without_rent_or_under_eviction_are_skipped() {
    let mut free = rental(vec![10], 0, 3);
    assert_eq!(free.collect_daily_rent(), RentCollection::Skipped);
    let mut leaving = rental(vec![10], 5, 30);
    leaving.eviction_timestamp = Some(5);
    assert_eq!(leaving.collect_daily_rent(), RentCollection::Skipped);
    assert_eq!(leaving.paid_rent, 30);
}
