//! Renting a building: who rents it, paying rent ahead, collecting it, and
//! the daily collection that moves rent into the claim's treasury.
use vstd::prelude::*;
use crate::item_stack::ItemStack;
use crate::inventory::{InventoryState, quantities_nonnegative};
use crate::inventory_fill::{add_result, same_header};
use crate::inventory_transfer::{StackRemoval, pay_prefix, remove_stacks_from_player_inventory};
use std::collections::HashMap;

verus! {

/// The rental of a building: the renter first in the white list, then the
/// other tenants; the rent paid ahead and the daily rent.
#[derive(Debug)]
pub struct RentState {
    pub entity_id: u64,
    pub claim_entity_id: u64,
    pub white_list: Vec<u64>,
    pub daily_rent: u32,
    pub paid_rent: u32,
    pub active: bool,
    pub defaulted: bool,
    /// When the tenants are to be evicted, in microseconds since the epoch.
    pub eviction_timestamp: Option<i64>,
}

/// Why a rent operation failed.
#[derive(Clone, Copy, Debug, PartialEq, Eq, Structural)]
pub enum RentError {
    /// The rent paid ahead is already at its maximum.
    AtMaximumCapacity,
    /// The player cannot pay that much.
    NotEnoughFunds,
    /// The landlord cannot pay the eviction fee, `initial_amount` in all.
    EvictionFeeUnpaid { initial_amount: u32 },
    /// The wallet has no room for the collected coins.
    NoRoomForCoins,
}

/// What the daily collection did to one rental.
#[derive(Clone, Copy, Debug, PartialEq, Eq, Structural)]
pub enum RentCollection {
    /// Nothing: no rent is asked, an eviction is under way, or the rental
    /// had already defaulted and still cannot pay.
    Skipped,
    /// A day of rent moved from what was paid ahead to the claim's treasury.
    Collected { treasury_credit: u32 },
    /// The rent could not be paid: the rental is now in default.
    Defaulted,
}

/// The renter: the first of the white list (entity 0 when it is empty).
pub open spec fn renter(white_list: Seq<u64>) -> u64 {
    if white_list.len() > 0 {
        white_list[0]
    } else {
        0
    }
}

/// The most rent that may be paid ahead.
pub open spec fn max_deposit(daily_rent: u32, max_rental_deposit_days: i32) -> int {
    daily_rent * (max_rental_deposit_days as u32)
}

/// The rental after one daily collection, and what happened.
pub open spec fn collected(r: RentState) -> (RentState, RentCollection) {
    if r.daily_rent > 0 && r.eviction_timestamp is None {
        if r.paid_rent >= r.daily_rent {
            (
                RentState { defaulted: false, paid_rent: (r.paid_rent - r.daily_rent) as u32, ..r },
                RentCollection::Collected { treasury_credit: r.daily_rent },
            )
        } else if !r.defaulted {
            (RentState { defaulted: true, ..r }, RentCollection::Defaulted)
        } else {
            (r, RentCollection::Skipped)
        }
    } else {
        (r, RentCollection::Skipped)
    }
}

/// The whole of one rental's fields but its white list.
pub open spec fn same_terms(a: RentState, b: RentState) -> bool {
    &&& a.entity_id == b.entity_id
    &&& a.claim_entity_id == b.claim_entity_id
    &&& a.white_list@ == b.white_list@
    &&& a.daily_rent == b.daily_rent
    &&& a.active == b.active
    &&& a.eviction_timestamp == b.eviction_timestamp
}

impl RentState {
    /// Whether `player_entity_id` is the renter.
    pub fn is_renter(&self, player_entity_id: u64) -> (r: bool)
        ensures
            r == (renter(self.white_list@) == player_entity_id),
    {
        let first: u64 = if self.white_list.len() > 0 { self.white_list[0] } else { 0 };
        first == player_entity_id
    }

    /// Whether `player_entity_id` is on the white list.
    pub fn is_tenant(&self, player_entity_id: u64) -> (r: bool)
        ensures
            r == self.white_list@.contains(player_entity_id),
    {
        let n = self.white_list.len();
        for i in 0..n
            invariant
                n == self.white_list@.len(),
                forall|j: int| 0 <= j < i ==> self.white_list@[j] != player_entity_id,
        {
            if self.white_list[i] == player_entity_id {
                return true;
            }
        }
        false
    }

    /// Ends the rental: no tenants, inactive, nothing paid, not in default,
    /// no eviction under way. The daily rent is kept for the next rental.
    pub fn clear(&mut self)
        ensures
            final(self).white_list@.len() == 0,
            !final(self).active,
            final(self).paid_rent == 0,
            !final(self).defaulted,
            final(self).eviction_timestamp is None,
            final(self).daily_rent == old(self).daily_rent,
            final(self).entity_id == old(self).entity_id,
            final(self).claim_entity_id == old(self).claim_entity_id,
    {
        self.white_list.clear();
        self.active = false;
        self.paid_rent = 0;
        self.defaulted = false;
        self.eviction_timestamp = None;
    }

    /// Pays up to `amount` of rent ahead out of the player's wallet and
    /// inventory, never beyond `max_rental_deposit_days` days of rent.
    pub fn pay_rent(
        &mut self,
        inventory: &mut InventoryState,
        wallet: &mut InventoryState,
        amount: u32,
        max_rental_deposit_days: i32,
    ) -> (r: Result<StackRemoval, RentError>)
        requires
            max_deposit(old(self).daily_rent, max_rental_deposit_days) <= u32::MAX,
            quantities_nonnegative(old(inventory).pockets@),
            quantities_nonnegative(old(wallet).pockets@),
        ensures
            same_header(*final(inventory), *old(inventory)),
            same_header(*final(wallet), *old(wallet)),
            same_terms(*final(self), *old(self)),
            final(self).defaulted == old(self).defaulted,
            ({
                let max = max_deposit(old(self).daily_rent, max_rental_deposit_days);
                let paid = if amount <= max - old(self).paid_rent { amount as int } else { max - old(self).paid_rent };
                let coins = seq![ItemStack::spec_hex_coins(paid as i32)];
                if old(self).paid_rent >= max {
                    &&& r == Err::<StackRemoval, RentError>(RentError::AtMaximumCapacity)
                    &&& final(self).paid_rent == old(self).paid_rent
                    &&& *final(inventory) == *old(inventory)
                    &&& *final(wallet) == *old(wallet)
                } else {
                    match pay_prefix(old(inventory).pockets@, old(wallet).pockets@, coins, 1) {
                        Some(res) => {
                            &&& r matches Ok(s) && s.success && s.inventory_updated == res.2 && s.wallet_updated == res.3
                            &&& final(self).paid_rent == old(self).paid_rent + paid
                            &&& final(inventory).pockets@ == (if res.2 { res.0 } else { old(inventory).pockets@ })
                            &&& final(wallet).pockets@ == (if res.3 { res.1 } else { old(wallet).pockets@ })
                        },
                        None => {
                            &&& r == Err::<StackRemoval, RentError>(RentError::NotEnoughFunds)
                            &&& final(self).paid_rent == old(self).paid_rent
                            &&& final(inventory).pockets@ == old(inventory).pockets@
                            &&& final(wallet).pockets@ == old(wallet).pockets@
                        },
                    }
                }
            }),
    {
        let max_amount: u32 = self.daily_rent * (max_rental_deposit_days as u32);
        if self.paid_rent >= max_amount {
            return Err(RentError::AtMaximumCapacity);
        }
        let room = max_amount - self.paid_rent;
        let amount: u32 = if amount <= room { amount } else { room };
        let coin_deposit = vec![ItemStack::hex_coins(amount as i32)];
        assert(coin_deposit@ =~= seq![ItemStack::spec_hex_coins(amount as i32)]);
        let none: HashMap<i32, i32> = HashMap::new();
        let removal = remove_stacks_from_player_inventory(inventory, wallet, &coin_deposit, false, &none);
        if !removal.success {
            return Err(RentError::NotEnoughFunds);
        }
        self.paid_rent = self.paid_rent + amount;
        Ok(removal)
    }

    /// Makes the landlord pay the `remaining_amount` of an eviction fee (of
    /// `initial_amount` in all) out of their wallet and inventory.
    pub fn pay_remaining_eviction_fee(
        &self,
        inventory: &mut InventoryState,
        wallet: &mut InventoryState,
        initial_amount: u32,
        remaining_amount: u32,
    ) -> (r: Result<StackRemoval, RentError>)
        requires
            quantities_nonnegative(old(inventory).pockets@),
            quantities_nonnegative(old(wallet).pockets@),
        ensures
            same_header(*final(inventory), *old(inventory)),
            same_header(*final(wallet), *old(wallet)),
            ({
                let coins = seq![ItemStack::spec_hex_coins(remaining_amount as i32)];
                match pay_prefix(old(inventory).pockets@, old(wallet).pockets@, coins, 1) {
                    Some(res) => {
                        &&& r matches Ok(s) && s.success && s.inventory_updated == res.2 && s.wallet_updated == res.3
                        &&& final(inventory).pockets@ == (if res.2 { res.0 } else { old(inventory).pockets@ })
                        &&& final(wallet).pockets@ == (if res.3 { res.1 } else { old(wallet).pockets@ })
                    },
                    None => {
                        &&& r == Err::<StackRemoval, RentError>(RentError::EvictionFeeUnpaid { initial_amount })
                        &&& final(inventory).pockets@ == old(inventory).pockets@
                        &&& final(wallet).pockets@ == old(wallet).pockets@
                    },
                }
            }),
    {
        let coin_deposit = vec![ItemStack::hex_coins(remaining_amount as i32)];
        assert(coin_deposit@ =~= seq![ItemStack::spec_hex_coins(remaining_amount as i32)]);
        let none: HashMap<i32, i32> = HashMap::new();
        let removal = remove_stacks_from_player_inventory(inventory, wallet, &coin_deposit, false, &none);
        if !removal.success {
            return Err(RentError::EvictionFeeUnpaid { initial_amount });
        }
        Ok(removal)
    }

    /// Hands the rent paid ahead to the player, as hex coins (of volume
    /// `coin_volume`) added to their wallet. The paid rent itself is left
    /// as it is. Ok with nothing to do when nothing was paid.
    pub fn collect_paid_rent(&self, wallet: &mut InventoryState, coin_volume: i32) -> (r: Result<(), RentError>)
        requires
            coin_volume > 0,
            quantities_nonnegative(old(wallet).pockets@),
        ensures
            same_header(*final(wallet), *old(wallet)),
            self.paid_rent == 0 ==> r is Ok && *final(wallet) == *old(wallet),
            self.paid_rent != 0 ==> match add_result(
                old(wallet).pockets@,
                old(wallet).cargo_start(),
                ItemStack::spec_hex_coins(self.paid_rent as i32),
                coin_volume as int,
            ) {
                Some(p) => r is Ok && final(wallet).pockets@ == p,
                None => r == Err::<(), RentError>(RentError::NoRoomForCoins) && final(wallet).pockets@ == old(wallet).pockets@,
            },
    {
        let amount = self.paid_rent;
        if amount == 0 {
            return Ok(());
        }
        let coins = ItemStack::hex_coins(amount as i32);
        if !wallet.add(coins, coin_volume) {
            return Err(RentError::NoRoomForCoins);
        }
        Ok(())
    }

    /// One daily collection: a day of rent moves from what was paid ahead
    /// to the claim's treasury when enough was paid (clearing a default);
    /// otherwise the rental falls into default, unless it already was.
    /// Rentals without rent, or under eviction, are skipped.
    pub fn collect_daily_rent(&mut self) -> (r: RentCollection)
        ensures
            (*final(self), r) == collected(*old(self)),
            old(self).daily_rent > 0 && old(self).eviction_timestamp is None && old(self).paid_rent >= old(self).daily_rent ==> {
                &&& r == (RentCollection::Collected { treasury_credit: old(self).daily_rent })
                &&& final(self).paid_rent == old(self).paid_rent - old(self).daily_rent
                &&& !final(self).defaulted
            },
            old(self).daily_rent > 0 && old(self).eviction_timestamp is None && old(self).paid_rent < old(self).daily_rent
                && !old(self).defaulted ==> {
                &&& r == RentCollection::Defaulted
                &&& final(self).paid_rent == old(self).paid_rent
                &&& final(self).defaulted
            },
    {
        if self.daily_rent > 0 && self.eviction_timestamp.is_none() {
            if self.paid_rent >= self.daily_rent {
                self.defaulted = false;
                self.paid_rent = self.paid_rent - self.daily_rent;
                return RentCollection::Collected { treasury_credit: self.daily_rent };
            } else if !self.defaulted {
                self.defaulted = true;
                return RentCollection::Defaulted;
            }
        }
        RentCollection::Skipped
    }
}

/// A daily collection takes a day of rent whenever at least a day was paid
/// ahead (for a rental with rent and no eviction under way), clearing any
/// default; a rental that paid less falls into default (once), keeping what
/// it paid; a rental without rent or under eviction is left alone.
pub proof fn law_paid_day_is_collected(r: RentState)
    ensures
        r.daily_rent > 0 && r.eviction_timestamp is None && r.paid_rent >= r.daily_rent ==> {
            let (after, what) = collected(r);
            &&& what == (RentCollection::Collected { treasury_credit: r.daily_rent })
            &&& after.paid_rent == r.paid_rent - r.daily_rent
            &&& !after.defaulted
        },
        r.daily_rent > 0 && r.eviction_timestamp is None && r.paid_rent < r.daily_rent ==> {
            let (after, what) = collected(r);
            &&& after.paid_rent == r.paid_rent
            &&& after.defaulted
            &&& what == (if r.defaulted { RentCollection::Skipped } else { RentCollection::Defaulted })
        },
        r.daily_rent == 0 || r.eviction_timestamp is Some ==> {
            let (after, what) = collected(r);
            &&& what == RentCollection::Skipped
            &&& after.paid_rent == r.paid_rent
            &&& after.defaulted == r.defaulted
        },
{
}

/// A daily collection moves rent, never makes or loses it: what was paid
/// ahead before equals what is left plus what went to the treasury.
pub proof fn law_daily_collection_moves_rent(r: RentState)
    ensures
        ({
            let (after, what) = collected(r);
            &&& what matches RentCollection::Collected { treasury_credit } ==> r.paid_rent == after.paid_rent + treasury_credit
            &&& !(what is Collected) ==> after.paid_rent == r.paid_rent
            &&& same_terms(after, r)
        }),
{
}

} // verus!
