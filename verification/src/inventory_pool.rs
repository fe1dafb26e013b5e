//! Moving items between a player and the containers around them: the
//! wallet, the inventory and the nearby deployables, taken as one row of
//! inventories that a withdrawal drains and a deposit fills in order.
use vstd::prelude::*;
use std::collections::HashMap;
use crate::item_stack::{ItemStack, ItemType, Pocket, HEX_COIN_ID};
use crate::inventory::{InventoryState, add_partial_result, quantities_nonnegative, take_prefix};
use crate::inventory_fill::same_header;
use crate::inventory_transfer::{
    StackRemoval, durabilities_known, merged, only_worn, pay_prefix, remove_stacks_from_player_inventory, without_worn,
};

verus! {

/// Why a withdrawal failed.
#[derive(Clone, Copy, Debug, PartialEq, Eq, Structural)]
pub enum TransferError {
    /// The player and the containers around them do not hold enough.
    MissingItems,
}

impl TransferError {
    /// The message shown to the player.
    pub fn message(&self) -> (r: String)
        ensures
            r@ == match self {
                TransferError::MissingItems => "You don't have the required items."@,
            },
    {
        match self {
            TransferError::MissingItems => String::from_str("You don't have the required items."),
        }
    }
}

/// The pockets of each inventory of a row.
pub open spec fn pockets_of(invs: Seq<InventoryState>) -> Seq<Seq<Pocket>> {
    invs.map_values(|v: InventoryState| v.pockets@)
}

/// No stack of any inventory of the row has a negative quantity.
pub open spec fn all_nonnegative(invs: Seq<InventoryState>) -> bool {
    forall|i: int| 0 <= i < invs.len() ==> quantities_nonnegative(#[trigger] invs[i].pockets@)
}

/// Every inventory of `a` has the header and the number of pockets of its
/// counterpart in `b`.
pub open spec fn same_shapes(a: Seq<InventoryState>, b: Seq<InventoryState>) -> bool {
    &&& a.len() == b.len()
    &&& forall|i: int| 0 <= i < a.len() ==> same_header(#[trigger] a[i], b[i]) && a[i].pockets@.len() == b[i].pockets@.len()
}

/// Taking as much of `stack` as one row of pockets holds:
/// (pockets after, quantity still wanted, whether a pocket was touched).
pub open spec fn partial_take(pockets: Seq<Pocket>, stack: ItemStack) -> (Seq<Pocket>, int, bool) {
    if stack.quantity <= 0 {
        (pockets, stack.quantity as int, false)
    } else {
        take_prefix(pockets, stack.item_id, stack.item_type, stack.quantity as int, pockets.len() as int)
    }
}

/// Taking `stack` out of the first `k` inventories of the row, one after
/// the other: (pockets after, what is still wanted, flags of change).
pub open spec fn take_across(pools: Seq<Seq<Pocket>>, stack: ItemStack, changed: Seq<bool>, k: int) -> (Seq<Seq<Pocket>>, ItemStack, Seq<bool>)
    decreases k,
{
    if k <= 0 {
        (pools, stack, changed)
    } else {
        let prev = take_across(pools, stack, changed, k - 1);
        let r = partial_take(prev.0[k - 1], prev.1);
        (prev.0.update(k - 1, r.0), ItemStack { quantity: r.1 as i32, ..prev.1 }, prev.2.update(k - 1, prev.2[k - 1] || r.2))
    }
}

/// Withdrawing the first `n` stacks from the row: each is taken out of the
/// inventories in order; `None` as soon as one cannot be taken in full.
pub open spec fn withdraw_prefix(pools: Seq<Seq<Pocket>>, stacks: Seq<ItemStack>, n: int) -> Option<(Seq<Seq<Pocket>>, Seq<bool>)>
    decreases n,
{
    if n <= 0 {
        Some((pools, Seq::new(pools.len(), |i: int| false)))
    } else {
        match withdraw_prefix(pools, stacks, n - 1) {
            None => None,
            Some(cur) => {
                let t = take_across(cur.0, stacks[n - 1], cur.1, cur.0.len() as int);
                if t.1.quantity > 0 {
                    None
                } else {
                    Some((t.0, t.2))
                }
            },
        }
    }
}

pub proof fn lemma_withdraw_failed(pools: Seq<Seq<Pocket>>, stacks: Seq<ItemStack>, i: int, n: int)
    requires
        0 <= i <= n,
        withdraw_prefix(pools, stacks, i) is None,
    ensures
        withdraw_prefix(pools, stacks, n) is None,
    decreases n - i,
{
    if n > i {
        lemma_withdraw_failed(pools, stacks, i, n - 1);
    }
}

/// The pockets an inventory enters a withdrawal with: worn tools set
/// aside when only full-durability items may be used.
pub open spec fn prepared(pockets: Seq<Pocket>, full_durability_only: bool, full_durability: Map<i32, i32>) -> Seq<Pocket> {
    if full_durability_only {
        without_worn(pockets, full_durability)
    } else {
        pockets
    }
}

/// The pockets a changed inventory is saved with after a withdrawal: its
/// worn tools put back when they were set aside.
pub open spec fn restored(after: Seq<Pocket>, before: Seq<Pocket>, full_durability_only: bool, full_durability: Map<i32, i32>) -> Seq<Pocket> {
    if full_durability_only {
        merged(after, only_worn(before, full_durability))
    } else {
        after
    }
}

/// The row a withdrawal drains: wallet, inventory, then the deployables.
pub open spec fn withdraw_row(wallet: Seq<Pocket>, inventory: Seq<Pocket>, deployables: Seq<InventoryState>) -> Seq<Seq<Pocket>> {
    seq![wallet, inventory] + pockets_of(deployables)
}

/// Which containers a transfer changed (and must be saved).
#[derive(Debug)]
pub struct TransferChanges {
    pub wallet_changed: bool,
    pub inventory_changed: bool,
    pub deployables_changed: Vec<bool>,
}

/// An inventory with no pockets, used as a stand-in while one of a row is
/// being worked on.
fn blank_inventory() -> (r: InventoryState)
    ensures
        r.pockets@.len() == 0,
        r.entity_id == 0,
        r.inventory_index == 0,
        r.cargo_index == 0,
        r.owner_entity_id == 0,
        r.player_owner_entity_id == 0,
{
    InventoryState {
        entity_id: 0,
        pockets: Vec::new(),
        inventory_index: 0,
        cargo_index: 0,
        owner_entity_id: 0,
        player_owner_entity_id: 0,
    }
}

/// Takes `stack` out of the row's inventories one after the other, as
/// `take_across` says, marking the inventories it touched.
fn take_across_row(invs: &mut Vec<InventoryState>, stack: &mut ItemStack, changed: &mut Vec<bool>)
    requires
        old(changed)@.len() == old(invs)@.len(),
        all_nonnegative(old(invs)@),
    ensures
        same_shapes(final(invs)@, old(invs)@),
        all_nonnegative(final(invs)@),
        final(changed)@.len() == old(changed)@.len(),
        (pockets_of(final(invs)@), *final(stack), final(changed)@)
            == take_across(pockets_of(old(invs)@), *old(stack), old(changed)@, old(invs)@.len() as int),
{
    let ghost pools0 = pockets_of(invs@);
    let ghost invs0 = invs@;
    let ghost stack0 = *stack;
    let ghost changed0 = changed@;
    let m = invs.len();
    for k in 0..m
        invariant
            m == invs@.len() == changed@.len() == invs0.len(),
            invs0 == old(invs)@,
            pools0 == pockets_of(invs0),
            stack0 == *old(stack),
            changed0 == old(changed)@,
            same_shapes(invs@, invs0),
            all_nonnegative(invs@),
            (pockets_of(invs@), *stack, changed@) == take_across(pools0, stack0, changed0, k as int),
    {
        let ghost before = invs@;
        let mut inv = blank_inventory();
        invs.set_and_swap(k, &mut inv);
        assert(inv == before[k as int]);
        assert(quantities_nonnegative(before[k as int].pockets@));
        let touched = inv.remove_partial(stack);
        if touched {
            changed.set(k, true);
        }
        invs.set_and_swap(k, &mut inv);
        proof {
            assert(invs@ == before.update(k as int, invs@[k as int]));
            assert(pockets_of(invs@) =~= pockets_of(before).update(k as int, invs@[k as int].pockets@));
            assert forall|i: int| 0 <= i < invs@.len() implies quantities_nonnegative(#[trigger] invs@[i].pockets@) by {
                if i != k {
                    assert(invs@[i] == before[i]);
                }
            }
            assert forall|i: int| 0 <= i < invs@.len() implies same_header(#[trigger] invs@[i], invs0[i])
                && invs@[i].pockets@.len() == invs0[i].pockets@.len() by {
                if i != k {
                    assert(invs@[i] == before[i]);
                }
            }
        }
    }
}

/// Withdraws every stack from the row, in order; on success the row holds
/// what `withdraw_prefix` says and the flags mark the touched inventories.
/// On failure the row is left in some state the caller throws away.
fn withdraw_row_exec(invs: &mut Vec<InventoryState>, item_stacks: &Vec<ItemStack>) -> (r: Option<Vec<bool>>)
    requires
        all_nonnegative(old(invs)@),
    ensures
        same_shapes(final(invs)@, old(invs)@),
        match withdraw_prefix(pockets_of(old(invs)@), item_stacks@, item_stacks@.len() as int) {
            Some(res) => r matches Some(ch) && ch@ == res.1 && pockets_of(final(invs)@) == res.0,
            None => r is None,
        },
        r matches Some(ch) ==> ch@.len() == old(invs)@.len(),
{
    let ghost pools0 = pockets_of(invs@);
    let m = invs.len();
    let mut changed: Vec<bool> = Vec::new();
    for i in 0..m
        invariant
            m == invs@.len(),
            changed@ == Seq::new(i as nat, |j: int| false),
    {
        changed.push(false);
    }
    assert(changed@ =~= Seq::new(pools0.len(), |j: int| false));
    let n = item_stacks.len();
    for k in 0..n
        invariant
            n == item_stacks@.len(),
            pools0 == pockets_of(old(invs)@),
            same_shapes(invs@, old(invs)@),
            all_nonnegative(invs@),
            changed@.len() == invs@.len(),
            withdraw_prefix(pools0, item_stacks@, k as int) == Some((pockets_of(invs@), changed@)),
    {
        let mut stack = item_stacks[k];
        let ghost before = invs@;
        take_across_row(invs, &mut stack, &mut changed);
        proof {
            assert(pockets_of(before).len() == before.len());
        }
        if stack.quantity > 0 {
            proof {
                lemma_withdraw_failed(pools0, item_stacks@, k + 1, n as int);
            }
            return None;
        }
    }
    Some(changed)
}

/// Puts back the worn tools set aside from each inventory of the row that
/// a withdrawal changed.
fn restore_changed(invs: &mut Vec<InventoryState>, used: &Vec<InventoryState>, changed: &Vec<bool>)
    requires
        used@.len() == old(invs)@.len() == changed@.len(),
        forall|i: int| 0 <= i < used@.len() ==> (#[trigger] used@[i]).pockets@.len() == old(invs)@[i].pockets@.len(),
    ensures
        same_shapes(final(invs)@, old(invs)@),
        forall|i: int| 0 <= i < old(invs)@.len() ==> (#[trigger] final(invs)@[i]).pockets@ == if changed@[i] {
            merged(old(invs)@[i].pockets@, used@[i].pockets@)
        } else {
            old(invs)@[i].pockets@
        },
{
    let m = invs.len();
    for k in 0..m
        invariant
            m == invs@.len() == used@.len() == changed@.len() == old(invs)@.len(),
            forall|i: int| 0 <= i < used@.len() ==> (#[trigger] used@[i]).pockets@.len() == old(invs)@[i].pockets@.len(),
            same_shapes(invs@, old(invs)@),
            forall|i: int| k <= i < m ==> #[trigger] invs@[i] == old(invs)@[i],
            forall|i: int| 0 <= i < k ==> (#[trigger] invs@[i]).pockets@ == if changed@[i] {
                merged(old(invs)@[i].pockets@, used@[i].pockets@)
            } else {
                old(invs)@[i].pockets@
            },
    {
        if changed[k] {
            let ghost before = invs@;
            let mut inv = blank_inventory();
            invs.set_and_swap(k, &mut inv);
            let ghost p0 = inv.pockets@;
            inv.merge_used_items(&used[k]);
            assert(inv.pockets@ =~= merged(p0, used@[k as int].pockets@));
            invs.set_and_swap(k, &mut inv);
            proof {
                assert forall|i: int| 0 <= i < m && i != k implies #[trigger] invs@[i] == before[i] by {}
            }
        }
    }
}

/// Sets the worn tools of each inventory of the row aside; returns, per
/// inventory, what was set aside.
fn exclude_used_in_row(invs: &mut Vec<InventoryState>, full_durability: &HashMap<i32, i32>) -> (used: Vec<InventoryState>)
    requires
        forall|i: int| 0 <= i < old(invs)@.len() ==> durabilities_known(#[trigger] old(invs)@[i].pockets@, full_durability@),
    ensures
        same_shapes(final(invs)@, old(invs)@),
        used@.len() == old(invs)@.len(),
        forall|i: int| 0 <= i < old(invs)@.len() ==> (#[trigger] final(invs)@[i]).pockets@
            == without_worn(old(invs)@[i].pockets@, full_durability@),
        forall|i: int| 0 <= i < old(invs)@.len() ==> (#[trigger] used@[i]).pockets@
            == only_worn(old(invs)@[i].pockets@, full_durability@),
{
    let m = invs.len();
    let mut used: Vec<InventoryState> = Vec::new();
    for k in 0..m
        invariant
            m == invs@.len() == old(invs)@.len(),
            used@.len() == k,
            forall|i: int| 0 <= i < old(invs)@.len() ==> durabilities_known(#[trigger] old(invs)@[i].pockets@, full_durability@),
            same_shapes(invs@, old(invs)@),
            forall|i: int| k <= i < m ==> #[trigger] invs@[i] == old(invs)@[i],
            forall|i: int| 0 <= i < k ==> (#[trigger] invs@[i]).pockets@ == without_worn(old(invs)@[i].pockets@, full_durability@),
            forall|i: int| 0 <= i < k ==> (#[trigger] used@[i]).pockets@ == only_worn(old(invs)@[i].pockets@, full_durability@),
    {
        let ghost before = invs@;
        let mut inv = blank_inventory();
        invs.set_and_swap(k, &mut inv);
        let u = inv.exclude_used_items(full_durability);
        used.push(u);
        invs.set_and_swap(k, &mut inv);
        proof {
            assert forall|i: int| 0 <= i < m && i != k implies #[trigger] invs@[i] == before[i] by {}
        }
    }
    used
}

/// What a withdrawal does, from the containers before (`w0`, `i0`, `d0`)
/// to the containers after (`w1`, `i1`, `d1`) and its result `r`.
pub open spec fn withdraw_outcome(
    w0: InventoryState,
    i0: InventoryState,
    d0: Seq<InventoryState>,
    stacks: Seq<ItemStack>,
    full_durability_only: bool,
    full_durability: Map<i32, i32>,
    w1: InventoryState,
    i1: InventoryState,
    d1: Seq<InventoryState>,
    r: Result<TransferChanges, TransferError>,
) -> bool {
    let f = full_durability_only;
    let unchanged = w1.pockets@ == w0.pockets@ && i1.pockets@ == i0.pockets@ && pockets_of(d1) == pockets_of(d0);
    match pay_prefix(prepared(i0.pockets@, f, full_durability), w0.pockets@, stacks, stacks.len() as int) {
        Some(res) => {
            &&& r matches Ok(c)
            &&& r->Ok_0.wallet_changed == res.3
            &&& r->Ok_0.inventory_changed == res.2
            &&& r->Ok_0.deployables_changed@ == Seq::new(d0.len(), |j: int| false)
            &&& i1.pockets@ == (if res.2 { restored(res.0, i0.pockets@, f, full_durability) } else { i0.pockets@ })
            &&& w1.pockets@ == (if res.3 { res.1 } else { w0.pockets@ })
            &&& pockets_of(d1) == pockets_of(d0)
        },
        None => if d0.len() == 0 {
            r == Err::<TransferChanges, TransferError>(TransferError::MissingItems) && unchanged
        } else {
            let row = withdraw_row(w0.pockets@, i0.pockets@, d0);
            let start = Seq::new(row.len(), |j: int| prepared(row[j], f, full_durability));
            match withdraw_prefix(start, stacks, stacks.len() as int) {
                None => r == Err::<TransferChanges, TransferError>(TransferError::MissingItems) && unchanged,
                Some(res) => {
                    &&& r matches Ok(c)
                    &&& r->Ok_0.wallet_changed == res.1[0]
                    &&& r->Ok_0.inventory_changed == res.1[1]
                    &&& r->Ok_0.deployables_changed@ == res.1.subrange(2, row.len() as int)
                    &&& forall|j: int| 0 <= j < row.len() ==> #[trigger] withdraw_row(w1.pockets@, i1.pockets@, d1)[j] == if res.1[j] {
                        restored(res.0[j], row[j], f, full_durability)
                    } else {
                        row[j]
                    }
                },
            }
        },
    }
}

/// Withdraws `item_stacks` for a player: first from their inventory and
/// wallet alone (as `remove_stacks_from_player_inventory`); failing that,
/// when deployables are near, from the row wallet, inventory, deployables
/// (nearest first), each stack taken out of them in that order. With
/// `full_durability_only`, worn tools are neither used nor lost. All or
/// nothing: on failure every container is left as it was.
fn withdraw(
    wallet: &mut InventoryState,
    inventory: &mut InventoryState,
    deployables: &mut Vec<InventoryState>,
    item_stacks: &Vec<ItemStack>,
    full_durability_only: bool,
    full_durability: &HashMap<i32, i32>,
) -> (r: Result<TransferChanges, TransferError>)
    requires
        quantities_nonnegative(old(wallet).pockets@),
        quantities_nonnegative(old(inventory).pockets@),
        all_nonnegative(old(deployables)@),
        full_durability_only ==> durabilities_known(old(wallet).pockets@, full_durability@),
        full_durability_only ==> durabilities_known(old(inventory).pockets@, full_durability@),
        full_durability_only ==> forall|i: int| 0 <= i < old(deployables)@.len()
            ==> durabilities_known(#[trigger] old(deployables)@[i].pockets@, full_durability@),
    ensures
        same_header(*final(wallet), *old(wallet)),
        same_header(*final(inventory), *old(inventory)),
        same_shapes(final(deployables)@, old(deployables)@),
        withdraw_outcome(
            *old(wallet),
            *old(inventory),
            old(deployables)@,
            item_stacks@,
            full_durability_only,
            full_durability@,
            *final(wallet),
            *final(inventory),
            final(deployables)@,
            r,
        ),
{
    let first = remove_stacks_from_player_inventory(inventory, wallet, item_stacks, full_durability_only, full_durability);
    if first.success {
        let mut unchanged: Vec<bool> = Vec::new();
        let nd = deployables.len();
        for i in 0..nd
            invariant
                unchanged@ == Seq::new(i as nat, |j: int| false),
        {
            unchanged.push(false);
        }
        proof {
            let f = full_durability_only;
            let res = pay_prefix(prepared(old(inventory).pockets@, f, full_durability@), old(wallet).pockets@, item_stacks@, item_stacks@.len() as int);
            assert(res is Some);
        }
        return Ok(TransferChanges {
            wallet_changed: first.wallet_updated,
            inventory_changed: first.inventory_updated,
            deployables_changed: unchanged,
        });
    }
    if deployables.len() == 0 {
        return Err(TransferError::MissingItems);
    }
    let mut row: Vec<InventoryState> = Vec::new();
    row.push(wallet.clone());
    row.push(inventory.clone());
    let nd = deployables.len();
    for i in 0..nd
        invariant
            nd == deployables@.len(),
            row@.len() == i + 2,
            same_header(row@[0], *old(wallet)),
            same_header(row@[1], *old(inventory)),
            row@[0].pockets@ == old(wallet).pockets@,
            row@[1].pockets@ == old(inventory).pockets@,
            forall|j: int| 0 <= j < i ==> same_header(#[trigger] row@[j + 2], deployables@[j])
                && row@[j + 2].pockets@ == deployables@[j].pockets@,
    {
        row.push(deployables[i].clone());
    }
    let ghost row0 = row@;
    let ghost full_row = withdraw_row(old(wallet).pockets@, old(inventory).pockets@, old(deployables)@);
    assert(pockets_of(row0) =~= full_row) by {
        assert forall|j: int| 0 <= j < row0.len() implies #[trigger] pockets_of(row0)[j] == full_row[j] by {
            if j >= 2 {
                assert(row0[(j - 2) + 2].pockets@ == deployables@[j - 2].pockets@);
            }
        }
    }
    let ghost start = Seq::new(full_row.len(), |j: int| prepared(full_row[j], full_durability_only, full_durability@));
    let mut used: Vec<InventoryState> = Vec::new();
    if full_durability_only {
        proof {
            assert forall|i: int| 0 <= i < row@.len() implies durabilities_known(#[trigger] row@[i].pockets@, full_durability@) by {
                if i >= 2 {
                    assert(row0[(i - 2) + 2].pockets@ == deployables@[i - 2].pockets@);
                }
            }
        }
        used = exclude_used_in_row(&mut row, full_durability);
    }
    assert(pockets_of(row@) =~= start);
    proof {
        assert forall|i: int| 0 <= i < row@.len() implies quantities_nonnegative(#[trigger] row@[i].pockets@) by {
            assert(quantities_nonnegative(full_row[i]));
            assert forall|j: int| 0 <= j < row@[i].pockets@.len() implies
                crate::item_stack::pocket_quantity(#[trigger] row@[i].pockets@[j]) >= 0 by {
                assert(crate::item_stack::pocket_quantity(full_row[i][j]) >= 0);
            }
        }
    }
    let ghost row1 = row@;
    match withdraw_row_exec(&mut row, item_stacks) {
        None => Err(TransferError::MissingItems),
        Some(changed) => {
            let ghost res = withdraw_prefix(start, item_stacks@, item_stacks@.len() as int)->0;
            let ghost target = Seq::new(
                full_row.len(),
                |j: int| if res.1[j] { restored(res.0[j], full_row[j], full_durability_only, full_durability@) } else { full_row[j] },
            );
            if full_durability_only {
                restore_changed(&mut row, &used, &changed);
            }
            proof {
                assert forall|j: int| 0 <= j < full_row.len() && #[trigger] changed@[j] implies row@[j].pockets@ == target[j] by {
                    if full_durability_only {
                        assert(used@[j].pockets@ == only_worn(full_row[j], full_durability@));
                    }
                }
            }
            let ghost row2 = row@;
            write_back(&mut row, &changed, wallet, inventory, deployables);
            proof {
                let d1 = deployables@;
                assert(withdraw_row(wallet.pockets@, inventory.pockets@, d1) =~= target) by {
                    assert forall|j: int| 0 <= j < target.len() implies #[trigger] withdraw_row(wallet.pockets@, inventory.pockets@, d1)[j] == target[j] by {
                        if j >= 2 {
                            assert(d1[j - 2] == if changed@[(j - 2) + 2] { row2[(j - 2) + 2] } else { old(deployables)@[j - 2] });
                        }
                    }
                }
                assert forall|j: int| 0 <= j < d1.len() implies same_header(#[trigger] d1[j], old(deployables)@[j])
                    && d1[j].pockets@.len() == old(deployables)@[j].pockets@.len() by {
                    assert(d1[j] == if changed@[j + 2] { row2[j + 2] } else { old(deployables)@[j] });
                    assert(row0[j + 2].pockets@ == old(deployables)@[j].pockets@);
                }
            }
            let deployables_changed = changed_deployables(&changed);
            Ok(TransferChanges { wallet_changed: changed[0], inventory_changed: changed[1], deployables_changed })
        },
    }
}

/// The flags of the deployables: all but the first two of the row's.
fn changed_deployables(changed: &Vec<bool>) -> (r: Vec<bool>)
    requires
        changed@.len() >= 2,
    ensures
        r@ == changed@.subrange(2, changed@.len() as int),
{
    let mut r: Vec<bool> = Vec::new();
    let n = changed.len();
    for k in 2..n
        invariant
            n == changed@.len(),
            r@ == changed@.subrange(2, k as int),
    {
        r.push(changed[k]);
        assert(r@ =~= changed@.subrange(2, k + 1));
    }
    r
}

/// Moves each changed inventory of the row (wallet, inventory, then the
/// deployables) back to its container; the others keep their value.
fn write_back(
    row: &mut Vec<InventoryState>,
    changed: &Vec<bool>,
    wallet: &mut InventoryState,
    inventory: &mut InventoryState,
    deployables: &mut Vec<InventoryState>,
)
    requires
        old(row)@.len() == changed@.len() == old(deployables)@.len() + 2,
    ensures
        *final(wallet) == if changed@[0] { old(row)@[0] } else { *old(wallet) },
        *final(inventory) == if changed@[1] { old(row)@[1] } else { *old(inventory) },
        final(deployables)@.len() == old(deployables)@.len(),
        forall|j: int| 0 <= j < old(deployables)@.len() ==> #[trigger] final(deployables)@[j] == if changed@[j + 2] {
            old(row)@[j + 2]
        } else {
            old(deployables)@[j]
        },
{
    let mut w = blank_inventory();
    if changed[0] {
        row.set_and_swap(0, &mut w);
        *wallet = w;
    }
    let mut v = blank_inventory();
    if changed[1] {
        row.set_and_swap(1, &mut v);
        *inventory = v;
    }
    let nd = deployables.len();
    let total = changed.len();
    for k in 0..nd
        invariant
            nd == old(deployables)@.len() == deployables@.len(),
            row@.len() == nd + 2 == changed@.len() == total,
            forall|j: int| k + 2 <= j < nd + 2 ==> #[trigger] row@[j] == old(row)@[j],
            forall|j: int| k <= j < nd ==> #[trigger] deployables@[j] == old(deployables)@[j],
            forall|j: int| 0 <= j < k ==> #[trigger] deployables@[j] == if changed@[j + 2] {
                old(row)@[j + 2]
            } else {
                old(deployables)@[j]
            },
    {
        if changed[k + 2] {
            let ghost r0 = row@;
            let ghost d0 = deployables@;
            let mut d = blank_inventory();
            row.set_and_swap(k + 2, &mut d);
            deployables.set_and_swap(k, &mut d);
            assert forall|j: int| k + 3 <= j < nd + 2 implies #[trigger] row@[j] == r0[j] by {}
            assert forall|j: int| 0 <= j < nd && j != k implies #[trigger] deployables@[j] == d0[j] by {}
        }
    }
}

/// Withdraws `item_stacks` for a player from their wallet, inventory and
/// the deployables near them (nearest first), all or nothing.
pub fn withdraw_from_player_inventory_and_nearby_deployables(
    wallet: &mut InventoryState,
    inventory: &mut InventoryState,
    deployables: &mut Vec<InventoryState>,
    item_stacks: &Vec<ItemStack>,
) -> (r: Result<TransferChanges, TransferError>)
    requires
        quantities_nonnegative(old(wallet).pockets@),
        quantities_nonnegative(old(inventory).pockets@),
        all_nonnegative(old(deployables)@),
    ensures
        same_header(*final(wallet), *old(wallet)),
        same_header(*final(inventory), *old(inventory)),
        same_shapes(final(deployables)@, old(deployables)@),
        withdraw_outcome(
            *old(wallet),
            *old(inventory),
            old(deployables)@,
            item_stacks@,
            false,
            Map::empty(),
            *final(wallet),
            *final(inventory),
            final(deployables)@,
            r,
        ),
{
    let none: HashMap<i32, i32> = HashMap::new();
    withdraw(wallet, inventory, deployables, item_stacks, false, &none)
}

/// Withdraws `item_stacks` for a player as above, using only items at full
/// durability: worn tools (below `full_durability` of their item) are
/// neither taken nor lost.
pub fn withdraw_full_durability_from_player_inventory_and_nearby_deployables(
    wallet: &mut InventoryState,
    inventory: &mut InventoryState,
    deployables: &mut Vec<InventoryState>,
    item_stacks: &Vec<ItemStack>,
    full_durability: &HashMap<i32, i32>,
) -> (r: Result<TransferChanges, TransferError>)
    requires
        quantities_nonnegative(old(wallet).pockets@),
        quantities_nonnegative(old(inventory).pockets@),
        all_nonnegative(old(deployables)@),
        durabilities_known(old(wallet).pockets@, full_durability@),
        durabilities_known(old(inventory).pockets@, full_durability@),
        forall|i: int| 0 <= i < old(deployables)@.len()
            ==> durabilities_known(#[trigger] old(deployables)@[i].pockets@, full_durability@),
    ensures
        same_header(*final(wallet), *old(wallet)),
        same_header(*final(inventory), *old(inventory)),
        same_shapes(final(deployables)@, old(deployables)@),
        withdraw_outcome(
            *old(wallet),
            *old(inventory),
            old(deployables)@,
            item_stacks@,
            true,
            full_durability@,
            *final(wallet),
            *final(inventory),
            final(deployables)@,
            r,
        ),
{
    withdraw(wallet, inventory, deployables, item_stacks, true, full_durability)
}

/// Whether `stack` is hex coins: the only thing the first inventory of a
/// deposit row takes.
pub open spec fn is_coin(stack: ItemStack) -> bool {
    stack.item_type == ItemType::Item && stack.item_id == HEX_COIN_ID
}

/// Adding as much of `stack` as fits into one row of pockets (cargo pockets
/// from `cargo_start` on): (pockets after, quantity left, whether touched).
/// An item of unknown volume goes nowhere.
pub open spec fn put_step(pockets: Seq<Pocket>, cargo_start: int, stack: ItemStack, volume: Option<i32>) -> (Seq<Pocket>, int, bool) {
    if stack.quantity <= 0 {
        (pockets, stack.quantity as int, false)
    } else {
        match volume {
            None => (pockets, stack.quantity as int, false),
            Some(v) => add_partial_result(pockets, cargo_start, stack, v as int),
        }
    }
}

/// Putting `stack` into the first `k` inventories of a deposit row, one
/// after the other; the first inventory of the row takes only coins.
pub open spec fn put_across(
    pools: Seq<Seq<Pocket>>,
    starts: Seq<int>,
    stack: ItemStack,
    volume: Option<i32>,
    changed: Seq<bool>,
    k: int,
) -> (Seq<Seq<Pocket>>, ItemStack, Seq<bool>)
    decreases k,
{
    if k <= 0 {
        (pools, stack, changed)
    } else {
        let prev = put_across(pools, starts, stack, volume, changed, k - 1);
        if k - 1 == 0 && !is_coin(prev.1) {
            prev
        } else {
            let r = put_step(prev.0[k - 1], starts[k - 1], prev.1, volume);
            (prev.0.update(k - 1, r.0), ItemStack { quantity: r.1 as i32, ..prev.1 }, prev.2.update(k - 1, prev.2[k - 1] || r.2))
        }
    }
}

/// Depositing the last `n` stacks, the last stack first: (pockets of the
/// row after, flags of change, what did not fit in the order met).
pub open spec fn deposit_prefix(
    pools: Seq<Seq<Pocket>>,
    starts: Seq<int>,
    stacks: Seq<ItemStack>,
    volumes: Seq<Option<i32>>,
    n: int,
) -> (Seq<Seq<Pocket>>, Seq<bool>, Seq<ItemStack>)
    decreases n,
{
    if n <= 0 {
        (pools, Seq::new(pools.len(), |i: int| false), Seq::empty())
    } else {
        let prev = deposit_prefix(pools, starts, stacks, volumes, n - 1);
        let j = stacks.len() - n;
        let t = put_across(prev.0, starts, stacks[j], volumes[j], prev.1, prev.0.len() as int);
        (t.0, t.2, if t.1.quantity > 0 { prev.2.push(t.1) } else { prev.2 })
    }
}

/// The first cargo pocket of each inventory of a row.
pub open spec fn starts_of(invs: Seq<InventoryState>) -> Seq<int> {
    invs.map_values(|v: InventoryState| v.cargo_start())
}

/// The row a deposit fills: when the player's own containers are filled,
/// the wallet first and the inventory second (or last, when deployables
/// are to be filled first); otherwise the deployables alone.
pub open spec fn deposit_order(
    wallet: InventoryState,
    inventory: InventoryState,
    deployables: Seq<InventoryState>,
    fill_player_inventory: bool,
    fill_deployable_inventory_first: bool,
) -> Seq<InventoryState> {
    if !fill_player_inventory {
        deployables
    } else if fill_deployable_inventory_first {
        seq![wallet] + deployables + seq![inventory]
    } else {
        seq![wallet, inventory] + deployables
    }
}

/// Position of the first deployable in a deposit row.
pub open spec fn deployables_offset(fill_player_inventory: bool, fill_deployable_inventory_first: bool) -> int {
    if !fill_player_inventory {
        0
    } else if fill_deployable_inventory_first {
        1
    } else {
        2
    }
}

/// Position of the inventory in a deposit row that holds it.
pub open spec fn inventory_position(deployables: int, fill_deployable_inventory_first: bool) -> int {
    if fill_deployable_inventory_first {
        deployables + 1
    } else {
        1
    }
}

/// Every known volume is positive.
pub open spec fn known_volumes_positive(volumes: Seq<Option<i32>>) -> bool {
    forall|i: int| 0 <= i < volumes.len() && (#[trigger] volumes[i]) is Some ==> volumes[i]->0 > 0
}

/// What a deposit did: what did not fit, and which containers changed.
#[derive(Debug)]
pub struct DepositOutcome {
    pub overflow: Vec<ItemStack>,
    pub changes: TransferChanges,
}

/// Puts `stack` into the row's inventories one after the other, as
/// `put_across` says, marking the inventories it touched.
fn put_across_row(invs: &mut Vec<InventoryState>, stack: &mut ItemStack, volume: Option<i32>, changed: &mut Vec<bool>)
    requires
        old(changed)@.len() == old(invs)@.len(),
        all_nonnegative(old(invs)@),
        volume matches Some(v) ==> v > 0,
    ensures
        same_shapes(final(invs)@, old(invs)@),
        forall|i: int| 0 <= i < old(invs)@.len() ==> (#[trigger] final(invs)@[i]).cargo_index == old(invs)@[i].cargo_index,
        all_nonnegative(final(invs)@),
        final(changed)@.len() == old(changed)@.len(),
        (pockets_of(final(invs)@), *final(stack), final(changed)@)
            == put_across(pockets_of(old(invs)@), starts_of(old(invs)@), *old(stack), volume, old(changed)@, old(invs)@.len() as int),
{
    let ghost pools0 = pockets_of(invs@);
    let ghost starts0 = starts_of(invs@);
    let ghost invs0 = invs@;
    let ghost stack0 = *stack;
    let ghost changed0 = changed@;
    let m = invs.len();
    for k in 0..m
        invariant
            m == invs@.len() == changed@.len() == invs0.len(),
            invs0 == old(invs)@,
            pools0 == pockets_of(invs0),
            starts0 == starts_of(invs0),
            stack0 == *old(stack),
            changed0 == old(changed)@,
            volume matches Some(v) ==> v > 0,
            same_shapes(invs@, invs0),
            all_nonnegative(invs@),
            (pockets_of(invs@), *stack, changed@) == put_across(pools0, starts0, stack0, volume, changed0, k as int),
    {
        if k != 0 || (stack.item_type == ItemType::Item && stack.item_id == HEX_COIN_ID) {
            let ghost before = invs@;
            let mut inv = blank_inventory();
            invs.set_and_swap(k, &mut inv);
            assert(inv == before[k as int]);
            assert(quantities_nonnegative(before[k as int].pockets@));
            assert(inv.cargo_start() == starts0[k as int]);
            match volume {
                Some(v) => {
                    if inv.add_partial(stack, v) {
                        changed.set(k, true);
                    }
                },
                None => {},
            }
            invs.set_and_swap(k, &mut inv);
            proof {
                assert(invs@ == before.update(k as int, invs@[k as int]));
                assert(pockets_of(invs@) =~= pockets_of(before).update(k as int, invs@[k as int].pockets@));
                assert forall|i: int| 0 <= i < invs@.len() implies quantities_nonnegative(#[trigger] invs@[i].pockets@) by {
                    if i != k {
                        assert(invs@[i] == before[i]);
                    }
                }
                assert forall|i: int| 0 <= i < invs@.len() implies same_header(#[trigger] invs@[i], invs0[i])
                    && invs@[i].pockets@.len() == invs0[i].pockets@.len() by {
                    if i != k {
                        assert(invs@[i] == before[i]);
                    }
                }
            }
        }
    }
}

/// Deposits the stacks into the row, the last stack first; returns what
/// did not fit and the flags of change.
fn deposit_row_exec(invs: &mut Vec<InventoryState>, item_stacks: &Vec<ItemStack>, volumes: &Vec<Option<i32>>) -> (r: (Vec<ItemStack>, Vec<bool>))
    requires
        all_nonnegative(old(invs)@),
        volumes@.len() == item_stacks@.len(),
        known_volumes_positive(volumes@),
    ensures
        same_shapes(final(invs)@, old(invs)@),
        ({
            let res = deposit_prefix(
                pockets_of(old(invs)@),
                starts_of(old(invs)@),
                item_stacks@,
                volumes@,
                item_stacks@.len() as int,
            );
            &&& pockets_of(final(invs)@) == res.0
            &&& r.1@ == res.1
            &&& r.0@ == res.2
        }),
        r.1@.len() == old(invs)@.len(),
{
    let ghost pools0 = pockets_of(invs@);
    let ghost starts0 = starts_of(invs@);
    let m = invs.len();
    let mut changed: Vec<bool> = Vec::new();
    for i in 0..m
        invariant
            m == invs@.len(),
            changed@ == Seq::new(i as nat, |j: int| false),
    {
        changed.push(false);
    }
    assert(changed@ =~= Seq::new(pools0.len(), |j: int| false));
    let mut overflow: Vec<ItemStack> = Vec::new();
    let n = item_stacks.len();
    for t in 0..n
        invariant
            n == item_stacks@.len() == volumes@.len(),
            known_volumes_positive(volumes@),
            pools0 == pockets_of(old(invs)@),
            starts0 == starts_of(old(invs)@),
            same_shapes(invs@, old(invs)@),
            starts_of(invs@) == starts0,
            all_nonnegative(invs@),
            changed@.len() == invs@.len(),
            deposit_prefix(pools0, starts0, item_stacks@, volumes@, t as int) == (pockets_of(invs@), changed@, overflow@),
    {
        let j = n - 1 - t;
        let mut stack = item_stacks[j];
        let volume = volumes[j];
        assert(volume matches Some(v) ==> v > 0) by {
            assert(volumes@[j as int] == volume);
        }
        let ghost before = invs@;
        put_across_row(invs, &mut stack, volume, &mut changed);
        proof {
            assert(pockets_of(before).len() == before.len());
            assert(starts_of(invs@) =~= starts_of(before)) by {
                assert forall|i: int| 0 <= i < invs@.len() implies #[trigger] starts_of(invs@)[i] == starts_of(before)[i] by {
                    assert(invs@[i].cargo_index == before[i].cargo_index);
                }
            }
        }
        if stack.quantity > 0 {
            overflow.push(stack);
        }
    }
    (overflow, changed)
}

/// Deposits `item_stacks` for a player, the last stack first, each into the
/// containers of the deposit row (see `deposit_order`) one after the other,
/// as much as fits; `volumes[i]` is the volume of the items of stack `i`
/// (`None` for an unknown item, which fits nowhere). Returns what did not
/// fit, to be dropped on the ground, and which containers changed.
pub fn deposit_to_player_inventory_and_nearby_deployables_and_get_overflow_stack(
    wallet: &mut InventoryState,
    inventory: &mut InventoryState,
    deployables: &mut Vec<InventoryState>,
    item_stacks: &Vec<ItemStack>,
    volumes: &Vec<Option<i32>>,
    fill_player_inventory: bool,
    fill_deployable_inventory_first: bool,
) -> (r: DepositOutcome)
    requires
        quantities_nonnegative(old(wallet).pockets@),
        quantities_nonnegative(old(inventory).pockets@),
        all_nonnegative(old(deployables)@),
        volumes@.len() == item_stacks@.len(),
        known_volumes_positive(volumes@),
    ensures
        ({
            let fill = fill_player_inventory;
            let first = fill_deployable_inventory_first;
            let nd = old(deployables)@.len() as int;
            let row = deposit_order(*old(wallet), *old(inventory), old(deployables)@, fill, first);
            let res = deposit_prefix(pockets_of(row), starts_of(row), item_stacks@, volumes@, item_stacks@.len() as int);
            let off = deployables_offset(fill, first);
            &&& r.overflow@ == res.2
            &&& pockets_of(deposit_order(*final(wallet), *final(inventory), final(deployables)@, fill, first)) == res.0
            &&& !fill ==> *final(wallet) == *old(wallet) && *final(inventory) == *old(inventory)
            &&& r.changes.wallet_changed == (fill && res.1[0])
            &&& r.changes.inventory_changed == (fill && res.1[inventory_position(nd, first)])
            &&& r.changes.deployables_changed@ == res.1.subrange(off, off + nd)
        }),
        same_header(*final(wallet), *old(wallet)),
        same_header(*final(inventory), *old(inventory)),
        same_shapes(final(deployables)@, old(deployables)@),
{
    let fill = fill_player_inventory;
    let first = fill_deployable_inventory_first;
    let ghost row0 = deposit_order(*old(wallet), *old(inventory), old(deployables)@, fill, first);
    let ghost off = deployables_offset(fill, first);
    let ghost tail: int = if fill && first { 1 } else { 0 };
    assert(row0.len() == off + deployables@.len() + tail);
    let mut row: Vec<InventoryState> = Vec::new();
    if fill {
        row.push(wallet.clone());
        assert(row0[0] == *old(wallet));
        if !first {
            row.push(inventory.clone());
            assert(row0[1] == *old(inventory));
        }
    }
    let nd = deployables.len();
    for k in 0..nd
        invariant
            nd == deployables@.len() == old(deployables)@.len(),
            *deployables == *old(deployables),
            row@.len() == off + k,
            off == deployables_offset(fill, first),
            row0 == deposit_order(*old(wallet), *old(inventory), old(deployables)@, fill, first),
            forall|j: int| 0 <= j < off + k ==> same_header(#[trigger] row@[j], row0[j]) && row@[j].pockets@ == row0[j].pockets@,
    {
        assert(row0[off + k] == deployables@[k as int]);
        row.push(deployables[k].clone());
    }
    if fill && first {
        row.push(inventory.clone());
        assert(row0[off + nd] == *old(inventory));
    }
    assert(row@.len() == row0.len());
    assert(pockets_of(row@) =~= pockets_of(row0));
    assert(starts_of(row@) =~= starts_of(row0));
    proof {
        assert forall|i: int| 0 <= i < row@.len() implies quantities_nonnegative(#[trigger] row@[i].pockets@) by {
            assert(row@[i].pockets@ == row0[i].pockets@);
            if fill && i == 0 {
                assert(row0[i] == *old(wallet));
            } else if fill && i == (if first { off + nd } else { 1 }) {
                assert(row0[i] == *old(inventory));
            } else {
                assert(row0[i] == old(deployables)@[i - off]);
            }
            assert(quantities_nonnegative(row0[i].pockets@));
        }
    }
    let (overflow, changed) = deposit_row_exec(&mut row, item_stacks, volumes);
    let ghost row2 = row@;
    let total = row.len();
    assert(total == off + nd + tail);
    let mut w = blank_inventory();
    let mut v = blank_inventory();
    if fill {
        row.set_and_swap(0, &mut w);
        *wallet = w;
        let inv_pos: usize = if first { total - 1 } else { 1 };
        row.set_and_swap(inv_pos, &mut v);
        *inventory = v;
    }
    let start: usize = if !fill { 0 } else if first { 1 } else { 2 };
    let mut deployables_changed: Vec<bool> = Vec::new();
    for k in 0..nd
        invariant
            nd == deployables@.len() == old(deployables)@.len(),
            start == off,
            total == off + nd + tail,
            0 <= tail <= 1,
            row@.len() == row2.len() == changed@.len() == total,
            forall|j: int| off + k <= j < off + nd ==> #[trigger] row@[j] == row2[j],
            forall|j: int| k <= j < nd ==> #[trigger] deployables@[j] == old(deployables)@[j],
            forall|j: int| 0 <= j < k ==> #[trigger] deployables@[j] == row2[off + j],
            deployables_changed@ == changed@.subrange(off, off + k),
    {
        let ghost r0 = row@;
        let ghost d0 = deployables@;
        let mut d = blank_inventory();
        row.set_and_swap(start + k, &mut d);
        deployables.set_and_swap(k, &mut d);
        deployables_changed.push(changed[start + k]);
        assert(deployables_changed@ =~= changed@.subrange(off, off + k + 1));
        assert forall|j: int| off + k + 1 <= j < off + nd implies #[trigger] row@[j] == r0[j] by {}
        assert forall|j: int| 0 <= j < nd && j != k implies #[trigger] deployables@[j] == d0[j] by {}
    }
    let wallet_changed = fill && changed[0];
    let inventory_changed = fill && changed[if first { total - 1 } else { 1 }];
    proof {
        let row3 = deposit_order(*wallet, *inventory, deployables@, fill, first);
        assert(pockets_of(row3) =~= pockets_of(row2)) by {
            assert forall|j: int| 0 <= j < row2.len() implies #[trigger] pockets_of(row3)[j] == pockets_of(row2)[j] by {
                if off <= j < off + nd {
                    assert(deployables@[j - off] == row2[off + (j - off)]);
                    assert(row3[j] == deployables@[j - off]);
                } else if fill && j == 0 {
                    assert(row3[j] == *wallet);
                } else {
                    assert(row3[j] == *inventory);
                }
            }
        }
        assert forall|j: int| 0 <= j < nd implies same_header(#[trigger] deployables@[j], old(deployables)@[j])
            && deployables@[j].pockets@.len() == old(deployables)@[j].pockets@.len() by {
            assert(deployables@[j] == row2[off + j]);
            assert(row0[off + j] == old(deployables)@[j]);
        }
        if fill {
            assert(row0[0] == *old(wallet));
            assert(row0[if first { off + nd } else { 1 }] == *old(inventory));
        }
    }
    DepositOutcome {
        overflow,
        changes: TransferChanges { wallet_changed, inventory_changed, deployables_changed },
    }
}

} // verus!
