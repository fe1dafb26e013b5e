//! Moving a player's house: the minutes it takes, from what the house's
//! containers hold.
use vstd::prelude::*;
use crate::item_stack::{ItemType, Pocket};
use crate::inventory::InventoryState;

verus! {

/// The most minutes a move takes (twenty days).
pub const MAX_COST: i32 = 28800;

/// The minutes any move that carries something takes (twelve hours).
pub const BASE_COST: i32 = 720;

/// Minutes per pocket of items.
pub const ITEM_COST: i32 = 30;

/// Minutes per unit of cargo.
pub const CARGO_COST: i32 = 10;

/// Minutes one pocket adds to a move.
pub open spec fn pocket_minutes(p: Pocket) -> int {
    match p.contents {
        Some(c) => if c.item_type == ItemType::Item { ITEM_COST as int } else { CARGO_COST * c.quantity },
        None => 0,
    }
}

/// Minutes the first `n` pockets add.
pub open spec fn pockets_minutes(pockets: Seq<Pocket>, n: int) -> int
    decreases n,
{
    if n <= 0 {
        0
    } else {
        pockets_minutes(pockets, n - 1) + pocket_minutes(pockets[n - 1])
    }
}

/// Minutes the first `k` inventories add.
pub open spec fn inventories_minutes(invs: Seq<InventoryState>, k: int) -> int
    decreases k,
{
    if k <= 0 {
        0
    } else {
        inventories_minutes(invs, k - 1) + pockets_minutes(invs[k - 1].pockets@, invs[k - 1].pockets@.len() as int)
    }
}

/// The minutes a move takes: what the containers hold, plus the base cost
/// when they hold anything, capped at the maximum.
pub open spec fn move_minutes(invs: Seq<InventoryState>) -> int {
    let m = inventories_minutes(invs, invs.len() as int);
    let with_base = if m != 0 { m + BASE_COST } else { m };
    if with_base < MAX_COST { with_base } else { MAX_COST as int }
}

/// The sums the cost is made of stay within `i32`.
pub open spec fn sums_fit(invs: Seq<InventoryState>) -> bool {
    &&& forall|k: int| 0 <= k <= invs.len() ==> i32::MIN <= #[trigger] inventories_minutes(invs, k) <= i32::MAX
    &&& forall|k: int, n: int| 0 <= k < invs.len() && 0 <= n <= invs[k].pockets@.len() ==> i32::MIN <= #[trigger] pockets_minutes(
        invs[k].pockets@,
        n,
    ) <= i32::MAX
    &&& forall|k: int, i: int| 0 <= k < invs.len() && 0 <= i < invs[k].pockets@.len() ==> i32::MIN <= #[trigger] pocket_minutes(
        invs[k].pockets@[i],
    ) <= i32::MAX
    &&& inventories_minutes(invs, invs.len() as int) + BASE_COST <= i32::MAX
}

/// The minutes moving a house takes, given the inventories of its
/// buildings.
pub fn get_housing_move_minutes_cost(inventories: &Vec<InventoryState>) -> (r: i32)
    requires
        sums_fit(inventories@),
    ensures
        r == move_minutes(inventories@),
{
    let mut minutes: i32 = 0;
    let n = inventories.len();
    let mut k: usize = 0;
    while k < n
        invariant
            k <= n,
            n == inventories@.len(),
            sums_fit(inventories@),
            minutes == inventories_minutes(inventories@, k as int),
        decreases n - k,
    {
        let pockets = &inventories[k].pockets;
        let m = pockets.len();
        let mut sum: i32 = 0;
        let mut i: usize = 0;
        while i < m
            invariant
                i <= m,
                m == pockets@.len(),
                k < n,
                n == inventories@.len(),
                *pockets == inventories@[k as int].pockets,
                sums_fit(inventories@),
                sum == pockets_minutes(pockets@, i as int),
            decreases m - i,
        {
            assert(i32::MIN <= pockets_minutes(inventories@[k as int].pockets@, i + 1) <= i32::MAX);
            assert(i32::MIN <= pocket_minutes(inventories@[k as int].pockets@[i as int]) <= i32::MAX);
            match pockets[i].contents {
                Some(content) => {
                    if content.item_type == ItemType::Item {
                        sum = sum + ITEM_COST;
                    } else {
                        sum = sum + CARGO_COST * content.quantity;
                    }
                },
                None => {},
            }
            i = i + 1;
        }
        assert(i32::MIN <= inventories_minutes(inventories@, k + 1) <= i32::MAX);
        minutes = minutes + sum;
        k = k + 1;
    }
    if minutes != 0 {
        minutes = minutes + BASE_COST;
    }
    if minutes < MAX_COST {
        minutes
    } else {
        MAX_COST
    }
}

proof fn lemma_empty_pockets_cost_nothing(pockets: Seq<Pocket>, n: int)
    requires
        0 <= n <= pockets.len(),
        forall|i: int| 0 <= i < pockets.len() ==> (#[trigger] pockets[i]).contents is None,
    ensures
        pockets_minutes(pockets, n) == 0,
    decreases n,
{
    if n > 0 {
        lemma_empty_pockets_cost_nothing(pockets, n - 1);
    }
}

proof fn lemma_empty_inventories_cost_nothing(invs: Seq<InventoryState>, k: int)
    requires
        0 <= k <= invs.len(),
        forall|j: int, i: int| 0 <= j < invs.len() && 0 <= i < invs[j].pockets@.len() ==> (#[trigger] invs[j].pockets@[i]).contents is None,
    ensures
        inventories_minutes(invs, k) == 0,
    decreases k,
{
    if k > 0 {
        lemma_empty_inventories_cost_nothing(invs, k - 1);
        let p = invs[k - 1].pockets@;
        assert forall|i: int| 0 <= i < p.len() implies (#[trigger] p[i]).contents is None by {
            assert(invs[k - 1].pockets@[i] == p[i]);
        }
        lemma_empty_pockets_cost_nothing(p, p.len() as int);
    }
}

/// Moving a house never costs more than the cap, and moving one whose
/// inventories hold nothing costs nothing.
pub proof fn law_move_cost_is_capped(invs: Seq<InventoryState>)
    ensures
        move_minutes(invs) <= MAX_COST,
        (forall|j: int, i: int| 0 <= j < invs.len() && 0 <= i < invs[j].pockets@.len() ==> (#[trigger] invs[j].pockets@[i]).contents
            is None) ==> move_minutes(invs) == 0,
{
    if forall|j: int, i: int| 0 <= j < invs.len() && 0 <= i < invs[j].pockets@.len() ==> (#[trigger] invs[j].pockets@[i]).contents
        is None {
        lemma_empty_inventories_cost_nothing(invs, invs.len() as int);
    }
}

} // verus!
