//! Taking a recipe's inputs out of an inventory, setting worn tools aside,
//! and paying for things out of a player's wallet and inventory.
use vstd::prelude::*;
use std::collections::HashMap;
use crate::item_stack::{ItemStack, ItemType, Pocket, HEX_COIN_ID};
use crate::inventory::{
    InventoryState, RemoveItemResult, held_by_id, quantities_nonnegative, remove_prefix, requested,
};
use crate::inventory_fill::same_header;

verus! {

broadcast use vstd::std_specs::hash::group_hash_axioms;

/// One input of a recipe: which item and how many of it.
#[derive(Clone, Copy, Debug, PartialEq, Eq, Structural)]
pub struct InputItemStack {
    pub item_id: i32,
    pub item_type: ItemType,
    pub quantity: i32,
}

/// The stack an input asks for.
pub open spec fn input_stack(input: InputItemStack) -> ItemStack {
    ItemStack { item_id: input.item_id, item_type: input.item_type, quantity: input.quantity, durability: None }
}

/// The stacks all inputs ask for.
pub open spec fn input_stacks(inputs: Seq<InputItemStack>) -> Seq<ItemStack> {
    inputs.map_values(|i: InputItemStack| input_stack(i))
}

/// The stacks of the first `n` inputs whose consumption roll succeeded.
pub open spec fn consumed_prefix(inputs: Seq<InputItemStack>, consumed: Seq<bool>, n: int) -> Seq<ItemStack>
    decreases n,
{
    if n <= 0 {
        Seq::empty()
    } else if consumed[n - 1] {
        consumed_prefix(inputs, consumed, n - 1).push(input_stack(inputs[n - 1]))
    } else {
        consumed_prefix(inputs, consumed, n - 1)
    }
}

/// Whether the pockets hold everything the stacks ask for (per item, over
/// all stacks, against what is held of that item id).
pub open spec fn has_all(pockets: Seq<Pocket>, stacks: Seq<ItemStack>) -> bool {
    forall|i: int| 0 <= i < stacks.len() ==> requested(stacks, (#[trigger] stacks[i]).item_id, stacks[i].item_type)
        <= held_by_id(pockets, stacks[i].item_id)
}

/// A stack that carries less durability than a fresh one of its item.
pub open spec fn is_worn(c: ItemStack, full_durability: Map<i32, i32>) -> bool {
    &&& c.durability is Some
    &&& c.durability->0 < full_durability[c.item_id]
}

/// Every stack with a durability has a known full durability.
pub open spec fn durabilities_known(pockets: Seq<Pocket>, full_durability: Map<i32, i32>) -> bool {
    forall|i: int| 0 <= i < pockets.len() && (#[trigger] pockets[i]).contents is Some
        && pockets[i].contents->0.durability is Some ==> full_durability.contains_key(pockets[i].contents->0.item_id)
}

/// The pockets with the worn stacks taken out.
pub open spec fn without_worn(pockets: Seq<Pocket>, full_durability: Map<i32, i32>) -> Seq<Pocket> {
    pockets.map_values(|p: Pocket| match p.contents {
        Some(c) => if is_worn(c, full_durability) { Pocket { contents: None, ..p } } else { p },
        None => p,
    })
}

/// The pockets keeping only the worn stacks.
pub open spec fn only_worn(pockets: Seq<Pocket>, full_durability: Map<i32, i32>) -> Seq<Pocket> {
    pockets.map_values(|p: Pocket| match p.contents {
        Some(c) => if is_worn(c, full_durability) { p } else { Pocket { contents: None, ..p } },
        None => p,
    })
}

/// `pockets` with every stack that `used` holds put back in its pocket.
pub open spec fn merged(pockets: Seq<Pocket>, used: Seq<Pocket>) -> Seq<Pocket> {
    Seq::new(
        pockets.len(),
        |i: int|
            if i < used.len() && used[i].contents is Some {
                Pocket { contents: used[i].contents, ..pockets[i] }
            } else {
                pockets[i]
            },
    )
}

/// The pockets after removing `stack` whole, if it can be removed.
pub open spec fn removed_one(pockets: Seq<Pocket>, stack: ItemStack) -> Option<Seq<Pocket>> {
    remove_prefix(pockets, seq![stack], 1)
}

/// Paying one stack from a player's (inventory, wallet): coins come out of
/// the wallet first and the rest out of the inventory; anything else comes
/// out of the inventory. `None` when it cannot be paid. The flags say
/// whether the inventory and the wallet changed.
pub open spec fn pay_one(inv: Seq<Pocket>, wallet: Seq<Pocket>, stack: ItemStack) -> Option<(Seq<Pocket>, Seq<Pocket>, bool, bool)> {
    let from_inventory = match removed_one(inv, stack) {
        Some(i2) => Some((i2, wallet, true, false)),
        None => None,
    };
    if stack.quantity <= 0 {
        Some((inv, wallet, false, false))
    } else if stack.item_id == HEX_COIN_ID && wallet.len() > 0 && wallet[0].contents is Some {
        let coins = wallet[0].contents->0;
        if coins.quantity < stack.quantity {
            match removed_one(inv, ItemStack { quantity: (stack.quantity - coins.quantity) as i32, ..stack }) {
                Some(i2) => {
                    let w2 = match removed_one(wallet, coins) {
                        Some(w) => w,
                        None => wallet,
                    };
                    Some((i2, w2, true, true))
                },
                None => None,
            }
        } else {
            match removed_one(wallet, stack) {
                Some(w2) => Some((inv, w2, false, true)),
                None => from_inventory,
            }
        }
    } else {
        from_inventory
    }
}

/// Paying the first `n` stacks one after the other, with the flags of
/// change gathered over all of them; `None` as soon as one cannot be paid.
pub open spec fn pay_prefix(inv: Seq<Pocket>, wallet: Seq<Pocket>, stacks: Seq<ItemStack>, n: int) -> Option<(Seq<Pocket>, Seq<Pocket>, bool, bool)>
    decreases n,
{
    if n <= 0 {
        Some((inv, wallet, false, false))
    } else {
        match pay_prefix(inv, wallet, stacks, n - 1) {
            None => None,
            Some(cur) => match pay_one(cur.0, cur.1, stacks[n - 1]) {
                None => None,
                Some(next) => Some((next.0, next.1, cur.2 || next.2, cur.3 || next.3)),
            },
        }
    }
}

pub proof fn lemma_pay_failed(inv: Seq<Pocket>, wallet: Seq<Pocket>, stacks: Seq<ItemStack>, i: int, n: int)
    requires
        0 <= i <= n,
        pay_prefix(inv, wallet, stacks, i) is None,
    ensures
        pay_prefix(inv, wallet, stacks, n) is None,
    decreases n - i,
{
    if n > i {
        lemma_pay_failed(inv, wallet, stacks, i, n - 1);
    }
}

/// Outcome of paying stacks out of a player's inventory and wallet.
#[derive(Clone, Copy, Debug, PartialEq, Eq, Structural)]
pub struct StackRemoval {
    pub success: bool,
    pub inventory_updated: bool,
    pub wallet_updated: bool,
}

impl InventoryState {
    /// Takes a recipe's inputs: fails, changing nothing, unless the
    /// inventory holds every input; then removes, all or nothing, the inputs
    /// whose consumption roll succeeded (`consumed[i]` for input `i`).
    pub fn remove_input_stacks(&mut self, input_item_stacks: &Vec<InputItemStack>, consumed: &Vec<bool>) -> (r: RemoveItemResult)
        requires
            consumed@.len() == input_item_stacks@.len(),
            quantities_nonnegative(old(self).pockets@),
        ensures
            same_header(*final(self), *old(self)),
            ({
                let n = input_item_stacks@.len() as int;
                let eaten = consumed_prefix(input_item_stacks@, consumed@, n);
                if !has_all(old(self).pockets@, input_stacks(input_item_stacks@)) {
                    &&& r == (RemoveItemResult { success: false, inventory_changed: false })
                    &&& final(self).pockets@ == old(self).pockets@
                } else {
                    match remove_prefix(old(self).pockets@, eaten, eaten.len() as int) {
                        Some(p) => {
                            &&& r == (RemoveItemResult { success: true, inventory_changed: eaten.len() > 0 })
                            &&& final(self).pockets@ == p
                        },
                        None => {
                            &&& r == (RemoveItemResult { success: false, inventory_changed: false })
                            &&& final(self).pockets@ == old(self).pockets@
                        },
                    }
                }
            }),
    {
        let n = input_item_stacks.len();
        let mut item_stacks: Vec<ItemStack> = Vec::new();
        for i in 0..n
            invariant
                n == input_item_stacks@.len(),
                item_stacks@ == input_stacks(input_item_stacks@).subrange(0, i as int),
        {
            let input = input_item_stacks[i];
            item_stacks.push(ItemStack { item_id: input.item_id, item_type: input.item_type, quantity: input.quantity, durability: None });
            assert(item_stacks@ =~= input_stacks(input_item_stacks@).subrange(0, i + 1));
        }
        assert(item_stacks@ =~= input_stacks(input_item_stacks@));
        if !self.has(&item_stacks) {
            return RemoveItemResult { success: false, inventory_changed: false };
        }
        let mut consumed_item_stacks: Vec<ItemStack> = Vec::new();
        for i in 0..n
            invariant
                n == input_item_stacks@.len() == consumed@.len(),
                consumed_item_stacks@ == consumed_prefix(input_item_stacks@, consumed@, i as int),
        {
            if consumed[i] {
                let input = input_item_stacks[i];
                consumed_item_stacks.push(
                    ItemStack { item_id: input.item_id, item_type: input.item_type, quantity: input.quantity, durability: None },
                );
            }
        }
        let success = self.remove(&consumed_item_stacks);
        RemoveItemResult { success, inventory_changed: success && consumed_item_stacks.len() > 0 }
    }

    /// Sets worn tools aside: every stack whose durability is below the full
    /// durability of its item (`full_durability`, by item id) is taken out
    /// of this inventory, and the returned copy of the inventory holds only
    /// those stacks.
    pub fn exclude_used_items(&mut self, full_durability: &HashMap<i32, i32>) -> (used: InventoryState)
        requires
            durabilities_known(old(self).pockets@, full_durability@),
        ensures
            same_header(*final(self), *old(self)),
            same_header(used, *old(self)),
            final(self).pockets@ == without_worn(old(self).pockets@, full_durability@),
            used.pockets@ == only_worn(old(self).pockets@, full_durability@),
    {
        let mut copy = self.clone();
        let len = self.pockets.len();
        for i in 0..len
            invariant
                len == self.pockets@.len() == copy.pockets@.len() == old(self).pockets@.len(),
                durabilities_known(old(self).pockets@, full_durability@),
                forall|j: int| #![trigger self.pockets@[j]] i <= j < len ==> self.pockets@[j] == old(self).pockets@[j],
                forall|j: int| #![trigger copy.pockets@[j]] i <= j < len ==> copy.pockets@[j] == old(self).pockets@[j],
                forall|j: int| 0 <= j < i ==> self.pockets@[j] == #[trigger] without_worn(old(self).pockets@, full_durability@)[j],
                forall|j: int| 0 <= j < i ==> copy.pockets@[j] == #[trigger] only_worn(old(self).pockets@, full_durability@)[j],
                same_header(*self, *old(self)),
                same_header(copy, *old(self)),
        {
            let p = self.pockets[i];
            match p.contents {
                Some(content) => {
                    let mut worn = false;
                    match content.durability {
                        Some(durability) => {
                            assert(self.pockets@[i as int] == old(self).pockets@[i as int]);
                            let full = full_durability.get(&content.item_id);
                            match full {
                                Some(f) => { worn = durability < *f; },
                                None => {},
                            }
                        },
                        None => {},
                    }
                    let ghost mine = self.pockets@;
                    let ghost theirs = copy.pockets@;
                    if worn {
                        self.pockets.set(i, Pocket { contents: None, ..p });
                    } else {
                        let q = copy.pockets[i];
                        copy.pockets.set(i, Pocket { contents: None, ..q });
                    }
                    assert forall|j: int| i < j < len implies self.pockets@[j] == mine[j] && copy.pockets@[j] == theirs[j] by {}
                },
                None => {},
            }
        }
        assert(self.pockets@ =~= without_worn(old(self).pockets@, full_durability@));
        assert(copy.pockets@ =~= only_worn(old(self).pockets@, full_durability@));
        copy
    }
}

/// Pays `item_stacks` out of a player's `inventory` and `wallet`: coins
/// out of the wallet first, the rest out of the inventory, stack by stack.
/// With `full_durability_only`, worn tools are set aside while paying and
/// put back afterwards. On success the changed containers are updated
/// (and the flags say which); on failure both are left as they were.
pub fn remove_stacks_from_player_inventory(
    inventory: &mut InventoryState,
    wallet: &mut InventoryState,
    item_stacks: &Vec<ItemStack>,
    full_durability_only: bool,
    full_durability: &HashMap<i32, i32>,
) -> (r: StackRemoval)
    requires
        quantities_nonnegative(old(inventory).pockets@),
        quantities_nonnegative(old(wallet).pockets@),
        full_durability_only ==> durabilities_known(old(inventory).pockets@, full_durability@),
    ensures
        same_header(*final(inventory), *old(inventory)),
        same_header(*final(wallet), *old(wallet)),
        ({
            let start = if full_durability_only {
                without_worn(old(inventory).pockets@, full_durability@)
            } else {
                old(inventory).pockets@
            };
            match pay_prefix(start, old(wallet).pockets@, item_stacks@, item_stacks@.len() as int) {
                Some(res) => {
                    &&& r == (StackRemoval { success: true, inventory_updated: res.2, wallet_updated: res.3 })
                    &&& final(inventory).pockets@ == if !res.2 {
                        old(inventory).pockets@
                    } else if full_durability_only {
                        merged(res.0, only_worn(old(inventory).pockets@, full_durability@))
                    } else {
                        res.0
                    }
                    &&& final(wallet).pockets@ == if res.3 { res.1 } else { old(wallet).pockets@ }
                },
                None => {
                    &&& r == (StackRemoval { success: false, inventory_updated: false, wallet_updated: false })
                    &&& final(inventory).pockets@ == old(inventory).pockets@
                    &&& final(wallet).pockets@ == old(wallet).pockets@
                },
            }
        }),
{
    let mut inv = inventory.clone();
    let mut wal = wallet.clone();
    let mut used: Option<InventoryState> = None;
    if full_durability_only {
        used = Some(inv.exclude_used_items(full_durability));
    }
    proof {
        assert forall|j: int| 0 <= j < inv.pockets@.len() implies crate::item_stack::pocket_quantity(#[trigger] inv.pockets@[j]) >= 0 by {
            assert(crate::item_stack::pocket_quantity(old(inventory).pockets@[j]) >= 0);
        }
    }
    let ghost start = inv.pockets@;
    assert(start == if full_durability_only {
        without_worn(old(inventory).pockets@, full_durability@)
    } else {
        old(inventory).pockets@
    });
    assert(full_durability_only ==> (used matches Some(u) && u.pockets@ == only_worn(old(inventory).pockets@, full_durability@)));
    let mut inventory_updated = false;
    let mut wallet_updated = false;
    let n = item_stacks.len();
    for k in 0..n
        invariant
            n == item_stacks@.len(),
            quantities_nonnegative(inv.pockets@),
            quantities_nonnegative(wal.pockets@),
            pay_prefix(start, old(wallet).pockets@, item_stacks@, k as int)
                == Some((inv.pockets@, wal.pockets@, inventory_updated, wallet_updated)),
            same_header(inv, *old(inventory)),
            same_header(wal, *old(wallet)),
            inv.pockets@.len() == old(inventory).pockets@.len(),
            full_durability_only ==> (used matches Some(u) && u.pockets@ == only_worn(old(inventory).pockets@, full_durability@)),
            !full_durability_only ==> used is None,
            start == if full_durability_only {
                without_worn(old(inventory).pockets@, full_durability@)
            } else {
                old(inventory).pockets@
            },
            *inventory == *old(inventory),
            *wallet == *old(wallet),
    {
        let stack = item_stacks[k];
        let ghost before = (inv.pockets@, wal.pockets@);
        let paid = pay_stack(&mut inv, &mut wal, stack);
        match paid {
            Some(flags) => {
                inventory_updated = inventory_updated || flags.0;
                wallet_updated = wallet_updated || flags.1;
            },
            None => {
                proof {
                    lemma_pay_failed(start, old(wallet).pockets@, item_stacks@, k + 1, n as int);
                }
                return StackRemoval { success: false, inventory_updated: false, wallet_updated: false };
            },
        }
    }
    if inventory_updated {
        match used {
            Some(u) => {
                let ghost paid_pockets = inv.pockets@;
                inv.merge_used_items(&u);
                assert(inv.pockets@ =~= merged(paid_pockets, u.pockets@));
            },
            None => {},
        }
        *inventory = inv;
    }
    if wallet_updated {
        *wallet = wal;
    }
    StackRemoval { success: true, inventory_updated, wallet_updated }
}

/// Pays one stack out of (inventory, wallet) as `pay_one` says; on failure
/// both are left as they were. Returns the flags of change.
fn pay_stack(inv: &mut InventoryState, wal: &mut InventoryState, stack: ItemStack) -> (r: Option<(bool, bool)>)
    requires
        quantities_nonnegative(old(inv).pockets@),
        quantities_nonnegative(old(wal).pockets@),
    ensures
        same_header(*final(inv), *old(inv)),
        same_header(*final(wal), *old(wal)),
        final(inv).pockets@.len() == old(inv).pockets@.len(),
        quantities_nonnegative(final(inv).pockets@),
        quantities_nonnegative(final(wal).pockets@),
        match pay_one(old(inv).pockets@, old(wal).pockets@, stack) {
            Some(res) => r == Some((res.2, res.3)) && final(inv).pockets@ == res.0 && final(wal).pockets@ == res.1,
            None => r is None && final(inv).pockets@ == old(inv).pockets@ && final(wal).pockets@ == old(wal).pockets@,
        },
{
    if stack.quantity <= 0 {
        return Some((false, false));
    }
    let ghost inv0 = inv.pockets@;
    if stack.item_id == HEX_COIN_ID && wal.pockets.len() > 0 {
        match wal.pockets[0].contents {
            Some(coins) => {
                assert(crate::item_stack::pocket_quantity(wal.pockets@[0]) >= 0);
                if coins.quantity < stack.quantity {
                    let rest = ItemStack { quantity: stack.quantity - coins.quantity, ..stack };
                    let rest_list = vec![rest];
                    assert(rest_list@ =~= seq![rest]);
                    let removed = inv.remove(&rest_list);
                    proof {
                        crate::inventory::lemma_remove_len(inv0, rest_list@, 1);
                    }
                    if removed {
                        let coin_list = vec![coins];
                        assert(coin_list@ =~= seq![coins]);
                        wal.remove(&coin_list);
                        return Some((true, true));
                    } else {
                        return None;
                    }
                } else {
                    let stack_list = vec![stack];
                    assert(stack_list@ =~= seq![stack]);
                    if wal.remove(&stack_list) {
                        return Some((false, true));
                    }
                }
            },
            None => {},
        }
    }
    let stack_list = vec![stack];
    assert(stack_list@ =~= seq![stack]);
    let removed = inv.remove(&stack_list);
    proof {
        crate::inventory::lemma_remove_len(inv0, stack_list@, 1);
    }
    if removed {
        Some((true, false))
    } else {
        None
    }
}

} // verus!
