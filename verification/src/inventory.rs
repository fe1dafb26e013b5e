//! An inventory: a row of pockets, item pockets first and cargo pockets from
//! `cargo_index` on.
use vstd::prelude::*;
use crate::item_stack::{ItemStack, ItemType, Pocket, pocket_quantity, spec_can_fit, HEX_COIN_ID};

verus! {

/// Outcome of consuming the inputs of a recipe.
#[derive(Clone, Copy, Debug, PartialEq, Eq, Structural)]
pub struct RemoveItemResult {
    pub success: bool,
    pub inventory_changed: bool,
}

/// The pockets of one container (player bag, toolbelt, wallet, chest...).
#[derive(Debug)]
pub struct InventoryState {
    pub entity_id: u64,
    pub pockets: Vec<Pocket>,
    pub inventory_index: i32,
    pub cargo_index: i32,
    pub owner_entity_id: u64,
    pub player_owner_entity_id: u64,
}

impl Clone for InventoryState {
    fn clone(&self) -> (r: Self)
        ensures
            r.pockets@ == self.pockets@,
            r.entity_id == self.entity_id,
            r.inventory_index == self.inventory_index,
            r.cargo_index == self.cargo_index,
            r.owner_entity_id == self.owner_entity_id,
            r.player_owner_entity_id == self.player_owner_entity_id,
    {
        let pockets = self.pockets.clone();
        assert(pockets@ =~= self.pockets@);
        InventoryState {
            entity_id: self.entity_id,
            pockets,
            inventory_index: self.inventory_index,
            cargo_index: self.cargo_index,
            owner_entity_id: self.owner_entity_id,
            player_owner_entity_id: self.player_owner_entity_id,
        }
    }
}

/// Whether pocket `p` holds item `item_id` of type `item_type`.
pub open spec fn holds(p: Pocket, item_id: i32, item_type: ItemType) -> bool {
    &&& p.contents is Some
    &&& p.contents->0.item_id == item_id
    &&& p.contents->0.item_type == item_type
}

/// No pocket holds a negative quantity.
pub open spec fn quantities_nonnegative(pockets: Seq<Pocket>) -> bool {
    forall|i: int| 0 <= i < pockets.len() ==> pocket_quantity(#[trigger] pockets[i]) >= 0
}

/// Quantity of an item held by the first `n` pockets.
pub open spec fn count_prefix(pockets: Seq<Pocket>, item_id: i32, item_type: ItemType, n: int) -> int
    decreases n,
{
    if n <= 0 {
        0
    } else {
        count_prefix(pockets, item_id, item_type, n - 1) + if holds(pockets[n - 1], item_id, item_type) {
            pocket_quantity(pockets[n - 1])
        } else {
            0
        }
    }
}

/// Quantity of an item held by all pockets.
pub open spec fn count(pockets: Seq<Pocket>, item_id: i32, item_type: ItemType) -> int {
    count_prefix(pockets, item_id, item_type, pockets.len() as int)
}

/// The stacks held by the first `n` pockets, in pocket order.
pub open spec fn contents_prefix(pockets: Seq<Pocket>, n: int) -> Seq<ItemStack>
    decreases n,
{
    if n <= 0 {
        Seq::empty()
    } else {
        let rest = contents_prefix(pockets, n - 1);
        match pockets[n - 1].contents {
            Some(c) => rest.push(c),
            None => rest,
        }
    }
}

/// The stacks with a positive quantity held by the first `n` pockets, in pocket order.
pub open spec fn positive_contents_prefix(pockets: Seq<Pocket>, n: int) -> Seq<ItemStack>
    decreases n,
{
    if n <= 0 {
        Seq::empty()
    } else {
        let rest = positive_contents_prefix(pockets, n - 1);
        match pockets[n - 1].contents {
            Some(c) => if c.quantity > 0 { rest.push(c) } else { rest },
            None => rest,
        }
    }
}

/// Hex coins held by the first `n` pockets.
pub open spec fn coins_prefix(pockets: Seq<Pocket>, n: int) -> int
    decreases n,
{
    if n <= 0 {
        0
    } else {
        coins_prefix(pockets, n - 1) + if holds(pockets[n - 1], HEX_COIN_ID, ItemType::Item) {
            pocket_quantity(pockets[n - 1])
        } else {
            0
        }
    }
}

/// The stacks of an optional list.
pub open spec fn view_of_stacks(item_stacks: Option<Vec<ItemStack>>) -> Option<Seq<ItemStack>> {
    match item_stacks {
        Some(v) => Some(v@),
        None => None,
    }
}

/// Pocket `i` of an inventory made by `create_with_pockets`.
pub open spec fn created_pocket(
    item_pocket_volume: i32,
    cargo_pocket_volume: i32,
    cargo_index: i32,
    item_stacks: Option<Seq<ItemStack>>,
    i: int,
) -> Pocket {
    match item_stacks {
        Some(stacks) => Pocket {
            volume: if i < (cargo_index as usize) as int { item_pocket_volume } else { cargo_pocket_volume },
            contents: if stacks.len() > i { Some(stacks[i]) } else { None },
            locked: false,
        },
        None => Pocket {
            volume: if i < cargo_index { item_pocket_volume } else { cargo_pocket_volume },
            contents: None,
            locked: false,
        },
    }
}

/// The pockets of an inventory after `double`: each half (item pockets,
/// cargo pockets) followed by as many empty pockets of the same volumes.
pub open spec fn doubled_pockets(pockets: Seq<Pocket>, cargo_start: int) -> Seq<Pocket> {
    let items = pockets.subrange(0, cargo_start);
    let cargo = pockets.subrange(cargo_start, pockets.len() as int);
    items + items.map_values(|p: Pocket| Pocket { volume: p.volume, contents: None, locked: false }) + cargo
        + cargo.map_values(|p: Pocket| Pocket { volume: p.volume, contents: None, locked: false })
}

/// Quantity requested of item (`item_id`, `item_type`) by the first `n` stacks.
pub open spec fn requested_prefix(stacks: Seq<ItemStack>, item_id: i32, item_type: ItemType, n: int) -> int
    decreases n,
{
    if n <= 0 {
        0
    } else {
        requested_prefix(stacks, item_id, item_type, n - 1) + if stacks[n - 1].item_id == item_id
            && stacks[n - 1].item_type == item_type {
            stacks[n - 1].quantity as int
        } else {
            0
        }
    }
}

/// Quantity requested of item (`item_id`, `item_type`) by all stacks.
pub open spec fn requested(stacks: Seq<ItemStack>, item_id: i32, item_type: ItemType) -> int {
    requested_prefix(stacks, item_id, item_type, stacks.len() as int)
}

/// Quantity held, whatever its type, of items with id `item_id` in the first `n` pockets.
pub open spec fn held_by_id_prefix(pockets: Seq<Pocket>, item_id: i32, n: int) -> int
    decreases n,
{
    if n <= 0 {
        0
    } else {
        held_by_id_prefix(pockets, item_id, n - 1) + match pockets[n - 1].contents {
            Some(c) => if c.item_id == item_id { c.quantity as int } else { 0 },
            None => 0,
        }
    }
}

/// Quantity held, whatever its type, of items with id `item_id`.
pub open spec fn held_by_id(pockets: Seq<Pocket>, item_id: i32) -> int {
    held_by_id_prefix(pockets, item_id, pockets.len() as int)
}

/// One pocket visited while taking up to `quantity` of an item out of an
/// inventory: (pocket after, quantity still to take, whether it was touched).
pub open spec fn take_step(p: Pocket, item_id: i32, item_type: ItemType, quantity: int) -> (Pocket, int, bool) {
    if quantity == 0 || !holds(p, item_id, item_type) {
        (p, quantity, false)
    } else {
        let held = pocket_quantity(p);
        let taken = if held <= quantity { held } else { quantity };
        let left = held - taken;
        (
            Pocket {
                contents: if left <= 0 { None } else { Some(ItemStack { quantity: left as i32, ..p.contents->0 }) },
                ..p
            },
            quantity - taken,
            true,
        )
    }
}

/// Taking up to `quantity` of an item out of the first `n` pockets, in order:
/// (pockets after, quantity still to take, whether any pocket was touched).
pub open spec fn take_prefix(pockets: Seq<Pocket>, item_id: i32, item_type: ItemType, quantity: int, n: int) -> (Seq<Pocket>, int, bool)
    decreases n,
{
    if n <= 0 {
        (pockets, quantity, false)
    } else {
        let prev = take_prefix(pockets, item_id, item_type, quantity, n - 1);
        let step = take_step(prev.0[n - 1], item_id, item_type, prev.1);
        (prev.0.update(n - 1, step.0), step.1, prev.2 || step.2)
    }
}

/// Taking from pockets keeps their number.
pub proof fn lemma_take_len(pockets: Seq<Pocket>, item_id: i32, item_type: ItemType, quantity: int, n: int)
    requires
        n <= pockets.len(),
    ensures
        take_prefix(pockets, item_id, item_type, quantity, n).0.len() == pockets.len(),
    decreases n,
{
    if n > 0 {
        lemma_take_len(pockets, item_id, item_type, quantity, n - 1);
    }
}

/// Once nothing is left to take, the remaining pockets are not touched.
pub proof fn lemma_take_settled(pockets: Seq<Pocket>, item_id: i32, item_type: ItemType, quantity: int, i: int, n: int)
    requires
        0 <= i <= n <= pockets.len(),
        take_prefix(pockets, item_id, item_type, quantity, i).1 == 0,
    ensures
        take_prefix(pockets, item_id, item_type, quantity, n) == (
            take_prefix(pockets, item_id, item_type, quantity, i).0,
            0int,
            take_prefix(pockets, item_id, item_type, quantity, i).2,
        ),
    decreases n - i,
{
    if n > i {
        lemma_take_settled(pockets, item_id, item_type, quantity, i, n - 1);
        lemma_take_len(pockets, item_id, item_type, quantity, n - 1);
        let prev = take_prefix(pockets, item_id, item_type, quantity, n - 1);
        assert(prev.0.update(n - 1, prev.0[n - 1]) =~= prev.0);
    }
}

/// Number of pockets among the first `n` that hold the item.
pub open spec fn holding_prefix(pockets: Seq<Pocket>, item_id: i32, item_type: ItemType, n: int) -> nat
    decreases n,
{
    if n <= 0 {
        0
    } else {
        holding_prefix(pockets, item_id, item_type, n - 1) + if holds(pockets[n - 1], item_id, item_type) {
            1nat
        } else {
            0nat
        }
    }
}

/// Number of pockets that hold the item.
pub open spec fn holding(pockets: Seq<Pocket>, item_id: i32, item_type: ItemType) -> nat {
    holding_prefix(pockets, item_id, item_type, pockets.len() as int)
}

/// Among the first `n` pockets, the first one holding the least of the item,
/// or -1 when none holds it.
pub open spec fn smallest_prefix(pockets: Seq<Pocket>, item_id: i32, item_type: ItemType, n: int) -> int
    decreases n,
{
    if n <= 0 {
        -1
    } else {
        let s = smallest_prefix(pockets, item_id, item_type, n - 1);
        if holds(pockets[n - 1], item_id, item_type) && (s == -1 || pocket_quantity(pockets[s])
            > pocket_quantity(pockets[n - 1])) {
            n - 1
        } else {
            s
        }
    }
}

/// The first pocket holding the least of the item, or -1.
pub open spec fn smallest(pockets: Seq<Pocket>, item_id: i32, item_type: ItemType) -> int {
    smallest_prefix(pockets, item_id, item_type, pockets.len() as int)
}

pub proof fn lemma_smallest(pockets: Seq<Pocket>, item_id: i32, item_type: ItemType, n: int)
    requires
        0 <= n <= pockets.len(),
    ensures
        ({
            let s = smallest_prefix(pockets, item_id, item_type, n);
            &&& (s == -1 <==> forall|j: int| 0 <= j < n ==> !holds(#[trigger] pockets[j], item_id, item_type))
            &&& s != -1 ==> {
                &&& 0 <= s < n
                &&& holds(pockets[s], item_id, item_type)
                &&& forall|j: int| 0 <= j < n && holds(#[trigger] pockets[j], item_id, item_type)
                    ==> pocket_quantity(pockets[s]) <= pocket_quantity(pockets[j])
                &&& forall|j: int| 0 <= j < s && holds(#[trigger] pockets[j], item_id, item_type)
                    ==> pocket_quantity(pockets[s]) < pocket_quantity(pockets[j])
            }
        }),
    decreases n,
{
    if n > 0 {
        lemma_smallest(pockets, item_id, item_type, n - 1);
    }
}

pub proof fn lemma_holding_update(pockets: Seq<Pocket>, item_id: i32, item_type: ItemType, s: int, p: Pocket, n: int)
    requires
        0 <= s < pockets.len(),
        0 <= n <= pockets.len(),
    ensures
        holding_prefix(pockets.update(s, p), item_id, item_type, n) == holding_prefix(pockets, item_id, item_type, n)
            - (if s < n && holds(pockets[s], item_id, item_type) { 1int } else { 0int })
            + (if s < n && holds(p, item_id, item_type) { 1int } else { 0int }),
    decreases n,
{
    if n > 0 {
        lemma_holding_update(pockets, item_id, item_type, s, p, n - 1);
    }
}

/// Pocket `p` after `taken` of its stack is taken out (emptied when nothing is left).
pub open spec fn reduced(p: Pocket, taken: int) -> Pocket {
    let left = pocket_quantity(p) - taken;
    Pocket {
        contents: if left == 0 { None } else { Some(ItemStack { quantity: left as i32, ..p.contents->0 }) },
        ..p
    }
}

/// Takes `quantity` of an item out of the pockets, each time out of the
/// first pocket that holds the least of it; `None` when the pockets run out.
pub open spec fn drain(pockets: Seq<Pocket>, item_id: i32, item_type: ItemType, quantity: int) -> Option<Seq<Pocket>>
    decreases holding(pockets, item_id, item_type),
{
    if quantity <= 0 {
        Some(pockets)
    } else {
        let s = smallest(pockets, item_id, item_type);
        if s == -1 {
            None
        } else {
            let held = pocket_quantity(pockets[s]);
            if held >= quantity {
                Some(pockets.update(s, reduced(pockets[s], quantity)))
            } else {
                let next = pockets.update(s, Pocket { contents: None, ..pockets[s] });
                proof {
                    lemma_smallest(pockets, item_id, item_type, pockets.len() as int);
                    lemma_holding_update(pockets, item_id, item_type, s, Pocket { contents: None, ..pockets[s] }, pockets.len() as int);
                }
                drain(next, item_id, item_type, quantity - held)
            }
        }
    }
}

/// Removing the first `n` stacks one after the other: `None` as soon as a
/// stack has a negative quantity or cannot be taken in full.
pub open spec fn remove_prefix(pockets: Seq<Pocket>, stacks: Seq<ItemStack>, n: int) -> Option<Seq<Pocket>>
    decreases n,
{
    if n <= 0 {
        Some(pockets)
    } else {
        match remove_prefix(pockets, stacks, n - 1) {
            None => None,
            Some(cur) => {
                let st = stacks[n - 1];
                if st.quantity == 0 {
                    Some(cur)
                } else if st.quantity < 0 {
                    None
                } else {
                    drain(cur, st.item_id, st.item_type, st.quantity as int)
                }
            },
        }
    }
}

/// Draining keeps the number of pockets.
pub proof fn lemma_drain_len(pockets: Seq<Pocket>, item_id: i32, item_type: ItemType, quantity: int)
    ensures
        drain(pockets, item_id, item_type, quantity) matches Some(p) ==> p.len() == pockets.len(),
    decreases holding(pockets, item_id, item_type),
{
    if quantity > 0 {
        let s = smallest(pockets, item_id, item_type);
        if s != -1 {
            lemma_smallest(pockets, item_id, item_type, pockets.len() as int);
            let held = pocket_quantity(pockets[s]);
            if held < quantity {
                let next = pockets.update(s, Pocket { contents: None, ..pockets[s] });
                lemma_holding_update(pockets, item_id, item_type, s, Pocket { contents: None, ..pockets[s] }, pockets.len() as int);
                lemma_drain_len(next, item_id, item_type, quantity - held);
            }
        }
    }
}

/// Removing stacks keeps the number of pockets.
pub proof fn lemma_remove_len(pockets: Seq<Pocket>, stacks: Seq<ItemStack>, n: int)
    ensures
        remove_prefix(pockets, stacks, n) matches Some(p) ==> p.len() == pockets.len(),
    decreases n,
{
    if n > 0 {
        lemma_remove_len(pockets, stacks, n - 1);
        match remove_prefix(pockets, stacks, n - 1) {
            Some(cur) => {
                let st = stacks[n - 1];
                lemma_drain_len(cur, st.item_id, st.item_type, st.quantity as int);
            },
            None => {},
        }
    }
}

pub proof fn lemma_remove_failed(pockets: Seq<Pocket>, stacks: Seq<ItemStack>, i: int, n: int)
    requires
        0 <= i <= n,
        remove_prefix(pockets, stacks, i) is None,
    ensures
        remove_prefix(pockets, stacks, n) is None,
    decreases n - i,
{
    if n > i {
        lemma_remove_failed(pockets, stacks, i, n - 1);
    }
}

/// Whether an incoming stack may be merged into the stack a pocket holds:
/// same item and type, and neither carries a durability.
pub open spec fn stacks_with(p: Pocket, stack: ItemStack) -> bool {
    &&& p.contents is Some
    &&& p.contents->0.item_id == stack.item_id
    &&& p.contents->0.item_type == stack.item_type
    &&& p.contents->0.durability is None
    &&& stack.durability is None
}

/// Smaller of two integers.
pub open spec fn min_int(a: int, b: int) -> int {
    if a <= b { a } else { b }
}

/// First pass of adding a stack, one pocket: top up a pocket that already
/// holds the same item. (pocket after, quantity left to add, whether touched)
pub open spec fn top_up_step(p: Pocket, stack: ItemStack, item_volume: int, quantity: int) -> (Pocket, int, bool) {
    if quantity == 0 || !stacks_with(p, stack) {
        (p, quantity, false)
    } else {
        let inserted = min_int(spec_can_fit(p, item_volume), quantity);
        let c = p.contents->0;
        (Pocket { contents: Some(ItemStack { quantity: (c.quantity + inserted) as i32, ..c }), ..p }, quantity - inserted, true)
    }
}

/// First pass of adding a stack over the first `n` pockets.
pub open spec fn top_up_prefix(pockets: Seq<Pocket>, stack: ItemStack, item_volume: int, quantity: int, n: int) -> (Seq<Pocket>, int, bool)
    decreases n,
{
    if n <= 0 {
        (pockets, quantity, false)
    } else {
        let prev = top_up_prefix(pockets, stack, item_volume, quantity, n - 1);
        let step = top_up_step(prev.0[n - 1], stack, item_volume, prev.1);
        (prev.0.update(n - 1, step.0), step.1, prev.2 || step.2)
    }
}

/// Second pass of adding a stack, pocket `i`: fill an empty pocket of the
/// right kind (cargo pockets for cargo, item pockets for items).
pub open spec fn fill_empty_step(p: Pocket, i: int, cargo_start: int, stack: ItemStack, item_volume: int, quantity: int) -> (Pocket, int, bool) {
    if quantity == 0 || (i >= cargo_start) != (stack.item_type == ItemType::Cargo) || p.contents is Some {
        (p, quantity, false)
    } else {
        let inserted = min_int(spec_can_fit(p, item_volume), quantity);
        (
            Pocket {
                contents: Some(ItemStack {
                    item_id: stack.item_id,
                    item_type: stack.item_type,
                    quantity: inserted as i32,
                    durability: stack.durability,
                }),
                ..p
            },
            quantity - inserted,
            true,
        )
    }
}

/// Second pass of adding a stack over the first `n` pockets.
pub open spec fn fill_empty_prefix(pockets: Seq<Pocket>, cargo_start: int, stack: ItemStack, item_volume: int, quantity: int, n: int) -> (Seq<Pocket>, int, bool)
    decreases n,
{
    if n <= 0 {
        (pockets, quantity, false)
    } else {
        let prev = fill_empty_prefix(pockets, cargo_start, stack, item_volume, quantity, n - 1);
        let step = fill_empty_step(prev.0[n - 1], n - 1, cargo_start, stack, item_volume, prev.1);
        (prev.0.update(n - 1, step.0), step.1, prev.2 || step.2)
    }
}

/// Adding as much of `stack` (items of volume `item_volume`) as fits:
/// first topping up pockets that hold the same item, then filling empty
/// pockets of the right kind, both in pocket order.
/// (pockets after, quantity that did not fit, whether any pocket was touched)
pub open spec fn add_partial_result(pockets: Seq<Pocket>, cargo_start: int, stack: ItemStack, item_volume: int) -> (Seq<Pocket>, int, bool) {
    let first = top_up_prefix(pockets, stack, item_volume, stack.quantity as int, pockets.len() as int);
    let second = fill_empty_prefix(first.0, cargo_start, stack, item_volume, first.1, pockets.len() as int);
    (second.0, second.1, first.2 || second.2)
}

pub proof fn lemma_top_up_len(pockets: Seq<Pocket>, stack: ItemStack, item_volume: int, quantity: int, n: int)
    requires
        n <= pockets.len(),
    ensures
        top_up_prefix(pockets, stack, item_volume, quantity, n).0.len() == pockets.len(),
    decreases n,
{
    if n > 0 {
        lemma_top_up_len(pockets, stack, item_volume, quantity, n - 1);
    }
}

pub proof fn lemma_top_up_settled(pockets: Seq<Pocket>, stack: ItemStack, item_volume: int, quantity: int, i: int, n: int)
    requires
        0 <= i <= n <= pockets.len(),
        top_up_prefix(pockets, stack, item_volume, quantity, i).1 == 0,
    ensures
        top_up_prefix(pockets, stack, item_volume, quantity, n) == (
            top_up_prefix(pockets, stack, item_volume, quantity, i).0,
            0int,
            top_up_prefix(pockets, stack, item_volume, quantity, i).2,
        ),
    decreases n - i,
{
    if n > i {
        lemma_top_up_settled(pockets, stack, item_volume, quantity, i, n - 1);
        lemma_top_up_len(pockets, stack, item_volume, quantity, n - 1);
        let prev = top_up_prefix(pockets, stack, item_volume, quantity, n - 1);
        assert(prev.0.update(n - 1, prev.0[n - 1]) =~= prev.0);
    }
}

pub proof fn lemma_fill_empty_len(pockets: Seq<Pocket>, cargo_start: int, stack: ItemStack, item_volume: int, quantity: int, n: int)
    requires
        n <= pockets.len(),
    ensures
        fill_empty_prefix(pockets, cargo_start, stack, item_volume, quantity, n).0.len() == pockets.len(),
    decreases n,
{
    if n > 0 {
        lemma_fill_empty_len(pockets, cargo_start, stack, item_volume, quantity, n - 1);
    }
}

pub proof fn lemma_fill_empty_settled(pockets: Seq<Pocket>, cargo_start: int, stack: ItemStack, item_volume: int, quantity: int, i: int, n: int)
    requires
        0 <= i <= n <= pockets.len(),
        fill_empty_prefix(pockets, cargo_start, stack, item_volume, quantity, i).1 == 0,
    ensures
        fill_empty_prefix(pockets, cargo_start, stack, item_volume, quantity, n) == (
            fill_empty_prefix(pockets, cargo_start, stack, item_volume, quantity, i).0,
            0int,
            fill_empty_prefix(pockets, cargo_start, stack, item_volume, quantity, i).2,
        ),
    decreases n - i,
{
    if n > i {
        lemma_fill_empty_settled(pockets, cargo_start, stack, item_volume, quantity, i, n - 1);
        lemma_fill_empty_len(pockets, cargo_start, stack, item_volume, quantity, n - 1);
        let prev = fill_empty_prefix(pockets, cargo_start, stack, item_volume, quantity, n - 1);
        assert(prev.0.update(n - 1, prev.0[n - 1]) =~= prev.0);
    }
}

/// Takes `quantity` of an item out of `pockets` as `drain` does; false when
/// the pockets run out (the pockets are then left part-way).
fn drain_pockets(pockets: &mut Vec<Pocket>, item_id: i32, item_type: ItemType, quantity: i32) -> (r: bool)
    requires
        quantity > 0,
        quantities_nonnegative(old(pockets)@),
    ensures
        match drain(old(pockets)@, item_id, item_type, quantity as int) {
            Some(p) => r && final(pockets)@ == p,
            None => !r,
        },
        r ==> quantities_nonnegative(final(pockets)@),
    decreases holding(old(pockets)@, item_id, item_type),
{
    let len = pockets.len();
    let mut smallest_index: usize = 0;
    let mut found = false;
    for j in 0..len
        invariant
            len == pockets@.len(),
            found <==> smallest_prefix(pockets@, item_id, item_type, j as int) != -1,
            found ==> smallest_index == smallest_prefix(pockets@, item_id, item_type, j as int),
    {
        proof {
            lemma_smallest(pockets@, item_id, item_type, j as int);
        }
        match pockets[j].contents {
            Some(content) => {
                if content.item_id == item_id && content.item_type == item_type {
                    let replace = if found {
                        match pockets[smallest_index].contents {
                            Some(sc) => sc.quantity > content.quantity,
                            None => true,
                        }
                    } else {
                        true
                    };
                    if replace {
                        smallest_index = j;
                        found = true;
                    }
                }
            },
            None => {},
        }
    }
    proof {
        lemma_smallest(pockets@, item_id, item_type, len as int);
    }
    if !found {
        return false;
    }
    let p = pockets[smallest_index];
    let held: i32 = match p.contents {
        Some(c) => c.quantity,
        None => 0,
    };
    proof {
        assert(pocket_quantity(pockets@[smallest_index as int]) >= 0);
    }
    if held >= quantity {
        let left: i32 = held - quantity;
        let new_contents = if left == 0 {
            None
        } else {
            match p.contents {
                Some(c) => Some(ItemStack { quantity: left, ..c }),
                None => None,
            }
        };
        pockets.set(smallest_index, Pocket { contents: new_contents, ..p });
        true
    } else {
        let ghost before = pockets@;
        pockets.set(smallest_index, Pocket { contents: None, ..p });
        proof {
            lemma_holding_update(before, item_id, item_type, smallest_index as int,
                Pocket { contents: None, ..p }, before.len() as int);
        }
        drain_pockets(pockets, item_id, item_type, quantity - held)
    }
}

impl InventoryState {
    /// First index of the cargo pockets, as the inventory reads it (a
    /// negative `cargo_index` wraps to a huge index).
    pub open spec fn cargo_start(&self) -> int {
        (self.cargo_index as usize) as int
    }

    /// Pocket `i` is free: it is past the last pocket or holds nothing.
    pub open spec fn is_free(&self, i: int) -> bool {
        i >= self.pockets@.len() || self.pockets@[i].contents is None
    }

    /// Contents of pocket `i`, `None` past the last pocket.
    pub open spec fn spec_contents(&self, i: int) -> Option<ItemStack> {
        if 0 <= i < self.pockets@.len() {
            self.pockets@[i].contents
        } else {
            None
        }
    }

    pub fn is_pocket_cargo(&self, pocket_index: usize) -> (r: bool)
        ensures
            r == (pocket_index as int >= self.cargo_start()),
    {
        pocket_index >= self.cargo_index as usize
    }

    pub fn get_pocket_contents(&self, pocket_index: usize) -> (r: Option<ItemStack>)
        ensures
            r == self.spec_contents(pocket_index as int),
    {
        if pocket_index < self.pockets.len() {
            self.pockets[pocket_index].contents
        } else {
            None
        }
    }

    pub fn is_pocket_empty(&self, pocket_index: usize) -> (r: bool)
        ensures
            r == self.is_free(pocket_index as int),
    {
        match self.get_pocket_contents(pocket_index) {
            Some(_) => false,
            None => true,
        }
    }

    /// First free pocket among the cargo pockets.
    pub fn next_free_cargo_pocket(&self) -> (r: Option<usize>)
        ensures
            match r {
                Some(i) => {
                    &&& self.cargo_start() <= i < self.pockets@.len()
                    &&& self.is_free(i as int)
                    &&& forall|j: int| self.cargo_start() <= j < i ==> !self.is_free(j)
                },
                None => forall|j: int| self.cargo_start() <= j < self.pockets@.len() ==> !self.is_free(j),
            },
    {
        let start: usize = self.cargo_index as usize;
        let len: usize = self.pockets.len();
        let mut i: usize = start;
        while i < len
            invariant
                start == self.cargo_start(),
                len == self.pockets@.len(),
                start <= i || len <= i,
                forall|j: int| start <= j < i ==> !self.is_free(j),
            decreases len - i,
        {
            if self.is_pocket_empty(i) {
                return Some(i);
            }
            i = i + 1;
        }
        None
    }

    /// First free pocket among the item pockets (a pocket index past the last
    /// pocket counts as free).
    pub fn next_free_item_pocket(&self) -> (r: Option<usize>)
        ensures
            match r {
                Some(i) => {
                    &&& i < self.cargo_start()
                    &&& i <= self.pockets@.len()
                    &&& self.is_free(i as int)
                    &&& forall|j: int| 0 <= j < i ==> !self.is_free(j)
                },
                None => forall|j: int| 0 <= j < self.cargo_start() ==> !self.is_free(j),
            },
    {
        let end: usize = self.cargo_index as usize;
        let mut i: usize = 0;
        while i < end
            invariant
                end == self.cargo_start(),
                i <= end,
                i <= self.pockets@.len(),
                forall|j: int| 0 <= j < i ==> !self.is_free(j),
            decreases end - i,
        {
            if self.is_pocket_empty(i) {
                return Some(i);
            }
            i = i + 1;
        }
        None
    }

    /// First free pocket for an item of the given type.
    pub fn next_free_pocket(&self, item_type: ItemType) -> (r: Option<usize>)
        ensures
            item_type == ItemType::Item ==> match r {
                Some(i) => {
                    &&& i < self.cargo_start()
                    &&& self.is_free(i as int)
                    &&& forall|j: int| 0 <= j < i ==> !self.is_free(j)
                },
                None => forall|j: int| 0 <= j < self.cargo_start() ==> !self.is_free(j),
            },
            item_type == ItemType::Cargo ==> match r {
                Some(i) => {
                    &&& self.cargo_start() <= i < self.pockets@.len()
                    &&& self.is_free(i as int)
                    &&& forall|j: int| self.cargo_start() <= j < i ==> !self.is_free(j)
                },
                None => forall|j: int| self.cargo_start() <= j < self.pockets@.len() ==> !self.is_free(j),
            },
    {
        match item_type {
            ItemType::Item => self.next_free_item_pocket(),
            ItemType::Cargo => self.next_free_cargo_pocket(),
        }
    }

    /// The contents `set_at` stores for a request: nothing for an empty or
    /// non-positive stack.
    pub open spec fn stored_contents(contents: Option<ItemStack>) -> Option<ItemStack> {
        match contents {
            Some(c) => if c.quantity <= 0 { None } else { Some(c) },
            None => None,
        }
    }

    /// Replaces the contents of pocket `pocket_index` (if it exists), keeping
    /// its volume and unlocking it; a stack with no positive quantity empties it.
    pub fn set_at(&mut self, pocket_index: usize, contents: Option<ItemStack>)
        ensures
            final(self).entity_id == old(self).entity_id,
            final(self).inventory_index == old(self).inventory_index,
            final(self).cargo_index == old(self).cargo_index,
            final(self).owner_entity_id == old(self).owner_entity_id,
            final(self).player_owner_entity_id == old(self).player_owner_entity_id,
            pocket_index < old(self).pockets@.len() ==> final(self).pockets@ == old(self).pockets@.update(
                pocket_index as int,
                Pocket {
                    contents: Self::stored_contents(contents),
                    volume: old(self).pockets@[pocket_index as int].volume,
                    locked: false,
                },
            ),
            pocket_index >= old(self).pockets@.len() ==> final(self).pockets@ == old(self).pockets@,
    {
        let pocket_contents = match contents {
            Some(c) => if c.quantity <= 0 { None } else { Some(c) },
            None => None,
        };
        if pocket_index < self.pockets.len() {
            let volume = self.pockets[pocket_index].volume;
            self.pockets.set(pocket_index, Pocket { contents: pocket_contents, volume, locked: false });
        }
    }

    /// The stack held by pocket `pocket_index`, if any.
    pub fn get_at(&self, pocket_index: usize) -> (r: Option<&ItemStack>)
        ensures
            match r {
                Some(s) => self.spec_contents(pocket_index as int) == Some(*s),
                None => self.spec_contents(pocket_index as int) is None,
            },
    {
        if pocket_index < self.pockets.len() {
            self.pockets[pocket_index].contents.as_ref()
        } else {
            None
        }
    }

    /// Empties pocket `pocket_index` and hands back what it held.
    pub fn remove_at(&mut self, pocket_index: usize) -> (r: Option<ItemStack>)
        ensures
            r == old(self).spec_contents(pocket_index as int),
            final(self).entity_id == old(self).entity_id,
            final(self).inventory_index == old(self).inventory_index,
            final(self).cargo_index == old(self).cargo_index,
            final(self).owner_entity_id == old(self).owner_entity_id,
            final(self).player_owner_entity_id == old(self).player_owner_entity_id,
            r is Some ==> final(self).pockets@ == old(self).pockets@.update(
                pocket_index as int,
                Pocket { contents: None, volume: old(self).pockets@[pocket_index as int].volume, locked: false },
            ),
            r is None ==> final(self).pockets@ == old(self).pockets@,
    {
        if pocket_index < self.pockets.len() {
            match self.pockets[pocket_index].contents {
                Some(stack) => {
                    self.set_at(pocket_index, None);
                    return Some(stack);
                },
                None => {},
            }
        }
        None
    }

    /// Takes `quantity` out of pocket `pocket_index`: `None` (and no change)
    /// for a negative quantity, an empty or missing pocket, or a pocket that
    /// holds less than `quantity`.
    pub fn remove_quantity_at(&mut self, pocket_index: usize, quantity: i32) -> (r: Option<ItemStack>)
        requires
            old(self).spec_contents(pocket_index as int) matches Some(c) ==> c.quantity - quantity >= i32::MIN,
        ensures
            final(self).entity_id == old(self).entity_id,
            final(self).inventory_index == old(self).inventory_index,
            final(self).cargo_index == old(self).cargo_index,
            final(self).owner_entity_id == old(self).owner_entity_id,
            final(self).player_owner_entity_id == old(self).player_owner_entity_id,
            ({
                let held = old(self).spec_contents(pocket_index as int);
                if quantity < 0 || held is None || held->0.quantity < quantity {
                    r is None && final(self).pockets@ == old(self).pockets@
                } else {
                    let c = held->0;
                    &&& r == Some(ItemStack { quantity, ..c })
                    &&& final(self).pockets@ == old(self).pockets@.update(
                        pocket_index as int,
                        Pocket {
                            contents: if c.quantity == quantity { None } else {
                                Some(ItemStack { quantity: (c.quantity - quantity) as i32, ..c })
                            },
                            volume: old(self).pockets@[pocket_index as int].volume,
                            locked: false,
                        },
                    )
                }
            }),
    {
        if quantity < 0 {
            return None;
        }
        if pocket_index < self.pockets.len() {
            match self.pockets[pocket_index].contents {
                Some(stack) => {
                    let new_stack = stack.clone_with_quantity(stack.quantity - quantity);
                    if new_stack.quantity < 0 {
                        return None;
                    }
                    let return_stack = Some(stack.clone_with_quantity(quantity));
                    self.set_at(pocket_index, if new_stack.quantity == 0 { None } else { Some(new_stack) });
                    return return_stack;
                },
                None => {},
            }
        }
        None
    }

    /// Index of the last pocket holding `item_id` with the smallest positive
    /// quantity, or -1 when no pocket holds a positive quantity of it.
    pub fn pocket_with_lowest_count(&self, item_id: i32) -> (r: i32)
        requires
            self.pockets@.len() <= i32::MAX,
        ensures
            r == -1 <==> forall|j: int|
                0 <= j < self.pockets@.len() ==> !Self::counts_for_lowest(#[trigger] self.pockets@[j], item_id),
            r != -1 ==> exists|i: int|
                0 <= i < self.pockets@.len() && r == i as i32 && Self::is_lowest_at(self.pockets@, item_id, i),
    {
        let mut lowest_index: i32 = -1;
        let mut lowest_quantity: i32 = i32::MAX;
        let ghost mut lowest: int = -1;
        let len = self.pockets.len();
        for i in 0..len
            invariant
                len == self.pockets@.len(),
                len <= i32::MAX,
                lowest == -1 <==> forall|j: int| 0 <= j < i ==> !Self::counts_for_lowest(#[trigger] self.pockets@[j], item_id),
                lowest == -1 ==> lowest_index == -1 && lowest_quantity == i32::MAX,
                lowest != -1 ==> {
                    &&& 0 <= lowest < i
                    &&& lowest_index == lowest as i32
                    &&& Self::counts_for_lowest(self.pockets@[lowest], item_id)
                    &&& lowest_quantity == pocket_quantity(self.pockets@[lowest])
                    &&& forall|j: int| 0 <= j < i && Self::counts_for_lowest(#[trigger] self.pockets@[j], item_id)
                        ==> lowest_quantity <= pocket_quantity(self.pockets@[j])
                    &&& forall|j: int| lowest < j < i && Self::counts_for_lowest(#[trigger] self.pockets@[j], item_id)
                        ==> lowest_quantity < pocket_quantity(self.pockets@[j])
                },
        {
            match self.pockets[i].contents {
                Some(contents) => {
                    if contents.item_id == item_id && contents.quantity > 0 && contents.quantity <= lowest_quantity {
                        lowest_quantity = contents.quantity;
                        lowest_index = i as i32;
                        proof { lowest = i as int; }
                    }
                },
                None => {},
            }
        }
        proof {
            if lowest != -1 {
                assert(Self::is_lowest_at(self.pockets@, item_id, lowest));
            }
        }
        lowest_index
    }

    /// Pocket `p` takes part in `pocket_with_lowest_count(item_id)`.
    pub open spec fn counts_for_lowest(p: Pocket, item_id: i32) -> bool {
        p.contents is Some && p.contents->0.item_id == item_id && p.contents->0.quantity > 0
    }

    /// Pocket `i` holds the smallest positive quantity of `item_id`, and no
    /// later pocket holds as little.
    pub open spec fn is_lowest_at(pockets: Seq<Pocket>, item_id: i32, i: int) -> bool {
        &&& Self::counts_for_lowest(pockets[i], item_id)
        &&& forall|j: int| 0 <= j < pockets.len() && Self::counts_for_lowest(#[trigger] pockets[j], item_id)
            ==> pocket_quantity(pockets[i]) <= pocket_quantity(pockets[j])
        &&& forall|j: int| i < j < pockets.len() && Self::counts_for_lowest(#[trigger] pockets[j], item_id)
            ==> pocket_quantity(pockets[i]) < pocket_quantity(pockets[j])
    }

    pub fn lock_pocket(&mut self, pocket_index: usize)
        requires
            pocket_index < old(self).pockets@.len(),
        ensures
            final(self).pockets@ == old(self).pockets@.update(
                pocket_index as int,
                Pocket { locked: true, ..old(self).pockets@[pocket_index as int] },
            ),
            final(self).entity_id == old(self).entity_id,
            final(self).inventory_index == old(self).inventory_index,
            final(self).cargo_index == old(self).cargo_index,
            final(self).owner_entity_id == old(self).owner_entity_id,
            final(self).player_owner_entity_id == old(self).player_owner_entity_id,
    {
        let p = self.pockets[pocket_index];
        self.pockets.set(pocket_index, Pocket { locked: true, ..p });
    }

    pub fn unlock_pocket(&mut self, pocket_index: usize)
        requires
            pocket_index < old(self).pockets@.len(),
        ensures
            final(self).pockets@ == old(self).pockets@.update(
                pocket_index as int,
                Pocket { locked: false, ..old(self).pockets@[pocket_index as int] },
            ),
            final(self).entity_id == old(self).entity_id,
            final(self).inventory_index == old(self).inventory_index,
            final(self).cargo_index == old(self).cargo_index,
            final(self).owner_entity_id == old(self).owner_entity_id,
            final(self).player_owner_entity_id == old(self).player_owner_entity_id,
    {
        let p = self.pockets[pocket_index];
        self.pockets.set(pocket_index, Pocket { locked: false, ..p });
    }

    pub fn unlock_all_pockets(&mut self)
        ensures
            final(self).pockets@.len() == old(self).pockets@.len(),
            forall|i: int| 0 <= i < old(self).pockets@.len() ==> #[trigger] final(self).pockets@[i]
                == (Pocket { locked: false, ..old(self).pockets@[i] }),
            final(self).entity_id == old(self).entity_id,
            final(self).inventory_index == old(self).inventory_index,
            final(self).cargo_index == old(self).cargo_index,
            final(self).owner_entity_id == old(self).owner_entity_id,
            final(self).player_owner_entity_id == old(self).player_owner_entity_id,
    {
        let len = self.pockets.len();
        for i in 0..len
            invariant
                self.pockets@.len() == len == old(self).pockets@.len(),
                forall|j: int| 0 <= j < i ==> #[trigger] self.pockets@[j] == (Pocket { locked: false, ..old(self).pockets@[j] }),
                forall|j: int| i <= j < len ==> #[trigger] self.pockets@[j] == old(self).pockets@[j],
                self.entity_id == old(self).entity_id,
                self.inventory_index == old(self).inventory_index,
                self.cargo_index == old(self).cargo_index,
                self.owner_entity_id == old(self).owner_entity_id,
                self.player_owner_entity_id == old(self).player_owner_entity_id,
        {
            self.unlock_pocket(i);
        }
    }

    /// No pocket holds a positive quantity.
    pub fn is_empty(&self) -> (r: bool)
        ensures
            r == forall|i: int| 0 <= i < self.pockets@.len() ==> pocket_quantity(#[trigger] self.pockets@[i]) <= 0,
    {
        let len = self.pockets.len();
        for i in 0..len
            invariant
                len == self.pockets@.len(),
                forall|j: int| 0 <= j < i ==> pocket_quantity(#[trigger] self.pockets@[j]) <= 0,
        {
            match self.pockets[i].contents {
                Some(c) => {
                    if c.quantity > 0 {
                        return false;
                    }
                },
                None => {},
            }
        }
        true
    }

    /// Total hex coins held by the inventory.
    pub fn coins(&self) -> (r: i32)
        requires
            forall|n: int| 0 <= n <= self.pockets@.len() ==> i32::MIN <= #[trigger] coins_prefix(self.pockets@, n) <= i32::MAX,
        ensures
            r == coins_prefix(self.pockets@, self.pockets@.len() as int),
    {
        let mut total: i32 = 0;
        let len = self.pockets.len();
        for i in 0..len
            invariant
                len == self.pockets@.len(),
                forall|n: int| 0 <= n <= self.pockets@.len() ==> i32::MIN <= #[trigger] coins_prefix(self.pockets@, n) <= i32::MAX,
                total == coins_prefix(self.pockets@, i as int),
        {
            proof {
                assert(i32::MIN <= coins_prefix(self.pockets@, i + 1) <= i32::MAX);
            }
            match self.pockets[i].contents {
                Some(c) => {
                    if c.item_type == ItemType::Item && c.item_id == HEX_COIN_ID {
                        total = total + c.quantity;
                    }
                },
                None => {},
            }
        }
        total
    }

    /// Every stack held, in pocket order.
    pub fn get_all_content(&self) -> (r: Vec<ItemStack>)
        ensures
            r@ == contents_prefix(self.pockets@, self.pockets@.len() as int),
    {
        let mut r: Vec<ItemStack> = Vec::new();
        let len = self.pockets.len();
        for i in 0..len
            invariant
                len == self.pockets@.len(),
                r@ == contents_prefix(self.pockets@, i as int),
        {
            match self.pockets[i].contents {
                Some(c) => r.push(c),
                None => {},
            }
        }
        r
    }

    /// Every stack with a positive quantity, in pocket order.
    pub fn as_item_stacks(&self) -> (r: Vec<ItemStack>)
        ensures
            r@ == positive_contents_prefix(self.pockets@, self.pockets@.len() as int),
    {
        let mut r: Vec<ItemStack> = Vec::new();
        let len = self.pockets.len();
        for i in 0..len
            invariant
                len == self.pockets@.len(),
                r@ == positive_contents_prefix(self.pockets@, i as int),
        {
            match self.pockets[i].contents {
                Some(c) => if c.quantity > 0 { r.push(c) },
                None => {},
            }
        }
        r
    }

    /// Puts back, pocket by pocket, the stacks that `used_inventory` holds.
    pub fn merge_used_items(&mut self, used_inventory: &InventoryState)
        requires
            forall|i: int| 0 <= i < used_inventory.pockets@.len() && (#[trigger] used_inventory.pockets@[i]).contents is Some
                ==> i < old(self).pockets@.len(),
        ensures
            final(self).pockets@ == crate::inventory_transfer::merged(old(self).pockets@, used_inventory.pockets@),
            final(self).pockets@.len() == old(self).pockets@.len(),
            forall|i: int| 0 <= i < old(self).pockets@.len() ==> #[trigger] final(self).pockets@[i] == if i < used_inventory.pockets@.len()
                && used_inventory.pockets@[i].contents is Some {
                Pocket { contents: used_inventory.pockets@[i].contents, ..old(self).pockets@[i] }
            } else {
                old(self).pockets@[i]
            },
            final(self).entity_id == old(self).entity_id,
            final(self).inventory_index == old(self).inventory_index,
            final(self).cargo_index == old(self).cargo_index,
            final(self).owner_entity_id == old(self).owner_entity_id,
            final(self).player_owner_entity_id == old(self).player_owner_entity_id,
    {
        let len = used_inventory.pockets.len();
        for i in 0..len
            invariant
                len == used_inventory.pockets@.len(),
                forall|i: int| 0 <= i < used_inventory.pockets@.len() && (#[trigger] used_inventory.pockets@[i]).contents is Some
                    ==> i < old(self).pockets@.len(),
                self.pockets@.len() == old(self).pockets@.len(),
                forall|j: int| 0 <= j < old(self).pockets@.len() ==> #[trigger] self.pockets@[j] == if j < i
                    && used_inventory.pockets@[j].contents is Some {
                    Pocket { contents: used_inventory.pockets@[j].contents, ..old(self).pockets@[j] }
                } else {
                    old(self).pockets@[j]
                },
                self.entity_id == old(self).entity_id,
                self.inventory_index == old(self).inventory_index,
                self.cargo_index == old(self).cargo_index,
                self.owner_entity_id == old(self).owner_entity_id,
                self.player_owner_entity_id == old(self).player_owner_entity_id,
        {
            match used_inventory.pockets[i].contents {
                Some(content) => {
                    let p = self.pockets[i];
                    self.pockets.set(i, Pocket { contents: Some(content), ..p });
                },
                None => {},
            }
        }
        assert(self.pockets@ =~= crate::inventory_transfer::merged(old(self).pockets@, used_inventory.pockets@));
    }

    /// Appends `num_new_pockets` empty pockets of the given volume.
    pub fn add_pockets(&mut self, num_new_pockets: i32, pocket_volume: i32)
        ensures
            final(self).pockets@ == old(self).pockets@ + Seq::new(
                if num_new_pockets > 0 { num_new_pockets as nat } else { 0 },
                |i: int| Pocket { volume: pocket_volume, contents: None, locked: false },
            ),
            final(self).entity_id == old(self).entity_id,
            final(self).inventory_index == old(self).inventory_index,
            final(self).cargo_index == old(self).cargo_index,
            final(self).owner_entity_id == old(self).owner_entity_id,
            final(self).player_owner_entity_id == old(self).player_owner_entity_id,
    {
        let mut k: i32 = 0;
        while k < num_new_pockets
            invariant
                0 <= k,
                num_new_pockets > 0 ==> k <= num_new_pockets,
                num_new_pockets <= 0 ==> k == 0,
                self.pockets@ == old(self).pockets@ + Seq::new(
                    k as nat,
                    |i: int| Pocket { volume: pocket_volume, contents: None, locked: false },
                ),
                self.entity_id == old(self).entity_id,
                self.inventory_index == old(self).inventory_index,
                self.cargo_index == old(self).cargo_index,
                self.owner_entity_id == old(self).owner_entity_id,
                self.player_owner_entity_id == old(self).player_owner_entity_id,
            decreases num_new_pockets - k,
        {
            self.pockets.push(Pocket::empty(pocket_volume));
            k = k + 1;
            assert(self.pockets@ =~= old(self).pockets@ + Seq::new(
                k as nat,
                |i: int| Pocket { volume: pocket_volume, contents: None, locked: false },
            ));
        }
        assert(self.pockets@ =~= old(self).pockets@ + Seq::new(
            if num_new_pockets > 0 { num_new_pockets as nat } else { 0 },
            |i: int| Pocket { volume: pocket_volume, contents: None, locked: false },
        ));
    }
    /// A new inventory of `num_pockets` pockets: item pockets (volume
    /// `item_pocket_volume`) before `cargo_index`, cargo pockets after, filled
    /// in order from `item_stacks` when given.
    pub fn create_with_pockets(
        entity_id: u64,
        num_pockets: i32,
        item_pocket_volume: i32,
        cargo_pocket_volume: i32,
        inventory_index: i32,
        cargo_index: i32,
        owner_entity_id: u64,
        player_owner_entity_id: u64,
        item_stacks: Option<Vec<ItemStack>>,
    ) -> (r: InventoryState)
        requires
            item_stacks is Some ==> num_pockets >= 0,
        ensures
            r.entity_id == entity_id,
            r.inventory_index == inventory_index,
            r.cargo_index == cargo_index,
            r.owner_entity_id == owner_entity_id,
            r.player_owner_entity_id == player_owner_entity_id,
            r.pockets@.len() == if num_pockets > 0 { num_pockets as int } else { 0 },
            forall|i: int| 0 <= i < r.pockets@.len() ==> #[trigger] r.pockets@[i] == created_pocket(
                item_pocket_volume,
                cargo_pocket_volume,
                cargo_index,
                view_of_stacks(item_stacks),
                i,
            ),
    {
        let ghost stacks_view = view_of_stacks(item_stacks);
        let mut pockets: Vec<Pocket> = Vec::new();
        match item_stacks {
            Some(item_stacks) => {
                let n: usize = num_pockets as usize;
                for pocket_index in 0..n
                    invariant
                        n == num_pockets,
                        stacks_view == Some(item_stacks@),
                        pockets@.len() == pocket_index,
                        forall|i: int| 0 <= i < pocket_index ==> #[trigger] pockets@[i] == created_pocket(
                            item_pocket_volume, cargo_pocket_volume, cargo_index, stacks_view, i),
                {
                    let pocket_volume = if pocket_index < cargo_index as usize {
                        item_pocket_volume
                    } else {
                        cargo_pocket_volume
                    };
                    let contents = if item_stacks.len() > pocket_index {
                        Some(item_stacks[pocket_index])
                    } else {
                        None
                    };
                    pockets.push(Pocket { volume: pocket_volume, contents, locked: false });
                }
            },
            None => {
                let mut pocket_index: i32 = 0;
                while pocket_index < num_pockets
                    invariant
                        0 <= pocket_index,
                        num_pockets > 0 ==> pocket_index <= num_pockets,
                        num_pockets <= 0 ==> pocket_index == 0,
                        stacks_view is None,
                        pockets@.len() == pocket_index,
                        forall|i: int| 0 <= i < pocket_index ==> #[trigger] pockets@[i] == created_pocket(
                            item_pocket_volume, cargo_pocket_volume, cargo_index, stacks_view, i),
                    decreases num_pockets - pocket_index,
                {
                    let pocket_volume = if pocket_index < cargo_index {
                        item_pocket_volume
                    } else {
                        cargo_pocket_volume
                    };
                    pockets.push(Pocket { volume: pocket_volume, contents: None, locked: false });
                    pocket_index = pocket_index + 1;
                }
            },
        }
        InventoryState {
            entity_id,
            pockets,
            inventory_index,
            cargo_index,
            owner_entity_id,
            player_owner_entity_id,
        }
    }

    /// Doubles the inventory: an empty copy of every item pocket after the
    /// item pockets and of every cargo pocket after the cargo pockets; the
    /// inventory and cargo indexes double.
    pub fn double(&mut self)
        requires
            old(self).cargo_start() <= old(self).pockets@.len(),
            i32::MIN <= 2 * old(self).inventory_index <= i32::MAX,
            i32::MIN <= 2 * old(self).cargo_index <= i32::MAX,
        ensures
            final(self).pockets@ == doubled_pockets(old(self).pockets@, old(self).cargo_start()),
            final(self).inventory_index == 2 * old(self).inventory_index,
            final(self).cargo_index == 2 * old(self).cargo_index,
            final(self).entity_id == old(self).entity_id,
            final(self).owner_entity_id == old(self).owner_entity_id,
            final(self).player_owner_entity_id == old(self).player_owner_entity_id,
    {
        let ghost old_pockets = self.pockets@;
        let ghost c = self.cargo_start();
        let ghost items = old_pockets.subrange(0, c);
        let ghost cargo = old_pockets.subrange(c, old_pockets.len() as int);
        let ghost empty_of = |p: Pocket| Pocket { volume: p.volume, contents: None, locked: false };
        let cargo_start: usize = self.cargo_index as usize;
        let len: usize = self.pockets.len();
        let mut new_pockets: Vec<Pocket> = Vec::new();
        for i in 0..cargo_start
            invariant
                cargo_start == c,
                c <= len == old_pockets.len(),
                self.pockets@ == old_pockets,
                items == old_pockets.subrange(0, c),
                cargo == old_pockets.subrange(c, len as int),
                empty_of == (|p: Pocket| Pocket { volume: p.volume, contents: None, locked: false }),
                new_pockets@ =~= items.subrange(0, i as int),
        {
            new_pockets.push(self.pockets[i]);
        }
        for i in 0..cargo_start
            invariant
                cargo_start == c,
                c <= len == old_pockets.len(),
                self.pockets@ == old_pockets,
                items == old_pockets.subrange(0, c),
                cargo == old_pockets.subrange(c, len as int),
                empty_of == (|p: Pocket| Pocket { volume: p.volume, contents: None, locked: false }),
                new_pockets@ =~= items + items.subrange(0, i as int).map_values(empty_of),
        {
            let v = self.pockets[i].volume;
            new_pockets.push(Pocket::empty(v));
        }
        for i in cargo_start..len
            invariant
                cargo_start == c,
                c <= len == old_pockets.len(),
                self.pockets@ == old_pockets,
                items == old_pockets.subrange(0, c),
                cargo == old_pockets.subrange(c, len as int),
                empty_of == (|p: Pocket| Pocket { volume: p.volume, contents: None, locked: false }),
                new_pockets@ =~= items + items.map_values(empty_of) + cargo.subrange(0, i - c),
        {
            new_pockets.push(self.pockets[i]);
        }
        for i in cargo_start..len
            invariant
                cargo_start == c,
                c <= len == old_pockets.len(),
                self.pockets@ == old_pockets,
                items == old_pockets.subrange(0, c),
                cargo == old_pockets.subrange(c, len as int),
                empty_of == (|p: Pocket| Pocket { volume: p.volume, contents: None, locked: false }),
                new_pockets@ =~= items + items.map_values(empty_of) + cargo + cargo.subrange(0, i - c).map_values(empty_of),
        {
            let v = self.pockets[i].volume;
            new_pockets.push(Pocket::empty(v));
        }
        self.pockets = new_pockets;
        self.inventory_index = self.inventory_index * 2;
        self.cargo_index = self.cargo_index * 2;
    }

    /// Whether the inventory holds everything `item_stacks` asks for: for
    /// each requested item, the quantity asked for it over all stacks is at
    /// most what the pockets hold of that item id.
    pub fn has(&self, item_stacks: &Vec<ItemStack>) -> (r: bool)
        ensures
            r == forall|i: int| 0 <= i < item_stacks@.len() ==> requested(
                item_stacks@,
                (#[trigger] item_stacks@[i]).item_id,
                item_stacks@[i].item_type,
            ) <= held_by_id(self.pockets@, item_stacks@[i].item_id),
    {
        let n = item_stacks.len();
        let len = self.pockets.len();
        for i in 0..n
            invariant
                n == item_stacks@.len(),
                len == self.pockets@.len(),
                forall|k: int| 0 <= k < i ==> requested(
                    item_stacks@,
                    (#[trigger] item_stacks@[k]).item_id,
                    item_stacks@[k].item_type,
                ) <= held_by_id(self.pockets@, item_stacks@[k].item_id),
        {
            let id = item_stacks[i].item_id;
            let ty = item_stacks[i].item_type;
            let mut wanted: i128 = 0;
            for j in 0..n
                invariant
                    n == item_stacks@.len(),
                    id == item_stacks@[i as int].item_id,
                    ty == item_stacks@[i as int].item_type,
                    wanted == requested_prefix(item_stacks@, id, ty, j as int),
                    -0x8000_0000 * j <= wanted <= 0x7fff_ffff * j,
            {
                if item_stacks[j].item_id == id && item_stacks[j].item_type == ty {
                    wanted = wanted + item_stacks[j].quantity as i128;
                }
            }
            let mut held: i128 = 0;
            for j in 0..len
                invariant
                    len == self.pockets@.len(),
                    held == held_by_id_prefix(self.pockets@, id, j as int),
                    -0x8000_0000 * j <= held <= 0x7fff_ffff * j,
            {
                match self.pockets[j].contents {
                    Some(c) => if c.item_id == id { held = held + c.quantity as i128; },
                    None => {},
                }
            }
            if wanted > held {
                return false;
            }
        }
        true
    }

    /// Takes up to `item_stack.quantity` of its item out of the pockets, in
    /// pocket order, emptying the pockets it drains; `item_stack.quantity` is
    /// left with what could not be taken. True when any pocket was touched.
    pub fn remove_partial(&mut self, item_stack: &mut ItemStack) -> (r: bool)
        requires
            quantities_nonnegative(old(self).pockets@),
        ensures
            final(self).entity_id == old(self).entity_id,
            final(self).inventory_index == old(self).inventory_index,
            final(self).cargo_index == old(self).cargo_index,
            final(self).owner_entity_id == old(self).owner_entity_id,
            final(self).player_owner_entity_id == old(self).player_owner_entity_id,
            final(item_stack).item_id == old(item_stack).item_id,
            final(item_stack).item_type == old(item_stack).item_type,
            final(item_stack).durability == old(item_stack).durability,
            quantities_nonnegative(final(self).pockets@),
            final(self).pockets@.len() == old(self).pockets@.len(),
            old(item_stack).quantity <= 0 ==> {
                &&& !r
                &&& final(self).pockets@ == old(self).pockets@
                &&& final(item_stack).quantity == old(item_stack).quantity
            },
            old(item_stack).quantity > 0 ==> {
                let res = take_prefix(
                    old(self).pockets@,
                    old(item_stack).item_id,
                    old(item_stack).item_type,
                    old(item_stack).quantity as int,
                    old(self).pockets@.len() as int,
                );
                &&& final(self).pockets@ == res.0
                &&& final(item_stack).quantity == res.1
                &&& r == res.2
            },
    {
        if item_stack.quantity <= 0 {
            return false;
        }
        let ghost old_pockets = self.pockets@;
        let ghost q0 = item_stack.quantity as int;
        let id = item_stack.item_id;
        let ty = item_stack.item_type;
        let mut has_removed_any = false;
        let len = self.pockets.len();
        for i in 0..len
            invariant
                len == self.pockets@.len() == old_pockets.len(),
                old_pockets == old(self).pockets@,
                q0 == old(item_stack).quantity,
                q0 > 0,
                id == old(item_stack).item_id,
                ty == old(item_stack).item_type,
                item_stack.item_id == id,
                item_stack.item_type == ty,
                item_stack.durability == old(item_stack).durability,
                item_stack.quantity > 0,
                quantities_nonnegative(old_pockets),
                (self.pockets@, item_stack.quantity as int, has_removed_any) == take_prefix(old_pockets, id, ty, q0, i as int),
                quantities_nonnegative(self.pockets@),
                forall|j: int| i <= j < len ==> self.pockets@[j] == old_pockets[j],
                self.entity_id == old(self).entity_id,
                self.inventory_index == old(self).inventory_index,
                self.cargo_index == old(self).cargo_index,
                self.owner_entity_id == old(self).owner_entity_id,
                self.player_owner_entity_id == old(self).player_owner_entity_id,
        {
            let p = self.pockets[i];
            match p.contents {
                Some(contents) => {
                    if contents.item_type == ty && contents.item_id == id {
                        proof {
                            assert(pocket_quantity(old_pockets[i as int]) >= 0);
                        }
                        let taken: i32 = if contents.quantity <= item_stack.quantity {
                            contents.quantity
                        } else {
                            item_stack.quantity
                        };
                        let left: i32 = contents.quantity - taken;
                        item_stack.quantity = item_stack.quantity - taken;
                        has_removed_any = true;
                        let new_contents = if left <= 0 { None } else { Some(ItemStack { quantity: left, ..contents }) };
                        let ghost before = self.pockets@;
                        self.pockets.set(i, Pocket { contents: new_contents, ..p });
                        proof {
                            assert forall|j: int| 0 <= j < self.pockets@.len() implies pocket_quantity(#[trigger] self.pockets@[j]) >= 0 by {
                                if j != i {
                                    assert(self.pockets@[j] == before[j]);
                                }
                            }
                        }
                        if item_stack.quantity == 0 {
                            proof {
                                lemma_take_settled(old_pockets, id, ty, q0, i + 1, len as int);
                            }
                            return true;
                        }
                    }
                },
                None => {},
            }
        }
        has_removed_any
    }
    /// Removes every stack of `item_stacks`, all or nothing: each stack is
    /// taken out pocket by pocket, always from the pocket holding the least
    /// of its item. False, with the inventory unchanged, when a stack has a
    /// negative quantity or the pockets do not hold enough.
    pub fn remove(&mut self, item_stacks: &Vec<ItemStack>) -> (r: bool)
        requires
            quantities_nonnegative(old(self).pockets@),
        ensures
            final(self).entity_id == old(self).entity_id,
            final(self).inventory_index == old(self).inventory_index,
            final(self).cargo_index == old(self).cargo_index,
            final(self).owner_entity_id == old(self).owner_entity_id,
            final(self).player_owner_entity_id == old(self).player_owner_entity_id,
            quantities_nonnegative(final(self).pockets@),
            match remove_prefix(old(self).pockets@, item_stacks@, item_stacks@.len() as int) {
                Some(p) => r && final(self).pockets@ == p,
                None => !r && final(self).pockets@ == old(self).pockets@,
            },
    {
        let mut pockets_copy = self.pockets.clone();
        assert(pockets_copy@ =~= self.pockets@);
        let n = item_stacks.len();
        for k in 0..n
            invariant
                n == item_stacks@.len(),
                remove_prefix(self.pockets@, item_stacks@, k as int) == Some(pockets_copy@),
                quantities_nonnegative(pockets_copy@),
                quantities_nonnegative(old(self).pockets@),
                self.pockets@ == old(self).pockets@,
                self.entity_id == old(self).entity_id,
                self.inventory_index == old(self).inventory_index,
                self.cargo_index == old(self).cargo_index,
                self.owner_entity_id == old(self).owner_entity_id,
                self.player_owner_entity_id == old(self).player_owner_entity_id,
        {
            let stack = item_stacks[k];
            if stack.quantity != 0 {
                if stack.quantity < 0 {
                    proof {
                        lemma_remove_failed(self.pockets@, item_stacks@, k + 1, n as int);
                    }
                    return false;
                }
                let ghost before = pockets_copy@;
                if !drain_pockets(&mut pockets_copy, stack.item_id, stack.item_type, stack.quantity) {
                    proof {
                        lemma_remove_failed(self.pockets@, item_stacks@, k + 1, n as int);
                    }
                    return false;
                }
            }
        }
        self.pockets = pockets_copy;
        true
    }

    /// Adds as much of `item_stack` as fits (its items having volume
    /// `item_volume`): first into pockets already holding the same item,
    /// then into empty pockets of the right kind; `item_stack.quantity` is
    /// left with what did not fit. False for a non-positive quantity;
    /// otherwise true when any pocket was touched.
    pub fn add_partial(&mut self, item_stack: &mut ItemStack, item_volume: i32) -> (r: bool)
        requires
            item_volume > 0,
            quantities_nonnegative(old(self).pockets@),
        ensures
            final(self).entity_id == old(self).entity_id,
            final(self).inventory_index == old(self).inventory_index,
            final(self).cargo_index == old(self).cargo_index,
            final(self).owner_entity_id == old(self).owner_entity_id,
            final(self).player_owner_entity_id == old(self).player_owner_entity_id,
            final(item_stack).item_id == old(item_stack).item_id,
            final(item_stack).item_type == old(item_stack).item_type,
            final(item_stack).durability == old(item_stack).durability,
            quantities_nonnegative(final(self).pockets@),
            final(self).pockets@.len() == old(self).pockets@.len(),
            old(item_stack).quantity <= 0 ==> {
                &&& !r
                &&& final(self).pockets@ == old(self).pockets@
                &&& final(item_stack).quantity == old(item_stack).quantity
            },
            old(item_stack).quantity > 0 ==> {
                let res = add_partial_result(old(self).pockets@, old(self).cargo_start(), *old(item_stack), item_volume as int);
                &&& final(self).pockets@ == res.0
                &&& final(item_stack).quantity == res.1
                &&& r == res.2
            },
            forall|i: int|
                0 <= i < old(self).pockets@.len() && old(self).pockets@[i].contents is None
                    && (#[trigger] final(self).pockets@[i]).contents is Some ==> {
                    let c = final(self).pockets@[i].contents->0;
                    &&& c.item_id == old(item_stack).item_id
                    &&& c.item_type == old(item_stack).item_type
                    &&& (c.item_type == ItemType::Cargo) == (i >= old(self).cargo_start())
                },
    {
        let ghost before = *old(self);
        let ghost stack0 = *item_stack;
        proof {
            crate::inventory_laws::law_add_fills_pockets_of_its_kind(
                before.pockets@,
                before.cargo_start(),
                stack0,
                item_volume as int,
            );
        }
        self.add_partial_in_order(item_stack, item_volume)
    }

    /// The two passes of `add_partial`: topping up, then filling empty
    /// pockets of the right kind.
    fn add_partial_in_order(&mut self, item_stack: &mut ItemStack, item_volume: i32) -> (r: bool)
        requires
            item_volume > 0,
            quantities_nonnegative(old(self).pockets@),
        ensures
            final(self).entity_id == old(self).entity_id,
            final(self).inventory_index == old(self).inventory_index,
            final(self).cargo_index == old(self).cargo_index,
            final(self).owner_entity_id == old(self).owner_entity_id,
            final(self).player_owner_entity_id == old(self).player_owner_entity_id,
            final(item_stack).item_id == old(item_stack).item_id,
            final(item_stack).item_type == old(item_stack).item_type,
            final(item_stack).durability == old(item_stack).durability,
            quantities_nonnegative(final(self).pockets@),
            final(self).pockets@.len() == old(self).pockets@.len(),
            old(item_stack).quantity <= 0 ==> {
                &&& !r
                &&& final(self).pockets@ == old(self).pockets@
                &&& final(item_stack).quantity == old(item_stack).quantity
            },
            old(item_stack).quantity > 0 ==> {
                let res = add_partial_result(old(self).pockets@, old(self).cargo_start(), *old(item_stack), item_volume as int);
                &&& final(self).pockets@ == res.0
                &&& final(item_stack).quantity == res.1
                &&& r == res.2
            },
    {
        if item_stack.quantity <= 0 {
            return false;
        }
        let ghost old_pockets = self.pockets@;
        let ghost stack0 = *item_stack;
        let ghost cs = self.cargo_start();
        let is_cargo = item_stack.item_type == ItemType::Cargo;
        let mut has_filled_any = false;
        let len = self.pockets.len();
        for i in 0..len
            invariant
                len == self.pockets@.len() == old_pockets.len(),
                old_pockets == old(self).pockets@,
                stack0 == *old(item_stack),
                cs == old(self).cargo_start(),
                stack0.quantity > 0,
                item_volume > 0,
                is_cargo == (stack0.item_type == ItemType::Cargo),
                item_stack.item_id == stack0.item_id,
                item_stack.item_type == stack0.item_type,
                item_stack.durability == stack0.durability,
                item_stack.quantity > 0,
                quantities_nonnegative(self.pockets@),
                (self.pockets@, item_stack.quantity as int, has_filled_any)
                    == top_up_prefix(old_pockets, stack0, item_volume as int, stack0.quantity as int, i as int),
                self.entity_id == old(self).entity_id,
                self.inventory_index == old(self).inventory_index,
                self.cargo_index == old(self).cargo_index,
                self.owner_entity_id == old(self).owner_entity_id,
                self.player_owner_entity_id == old(self).player_owner_entity_id,
        {
            let p = self.pockets[i];
            match p.contents {
                Some(content) => {
                    if content.item_id == item_stack.item_id && content.item_type == item_stack.item_type
                        && content.durability.is_none() && item_stack.durability.is_none() {
                        proof {
                            assert(pocket_quantity(self.pockets@[i as int]) >= 0);
                        }
                        let fit = p.can_fit_quantity(item_volume);
                        let inserted: i32 = if fit <= item_stack.quantity { fit } else { item_stack.quantity };
                        let ghost before = self.pockets@;
                        self.pockets.set(i, Pocket { contents: Some(ItemStack { quantity: content.quantity + inserted, ..content }), ..p });
                        item_stack.quantity = item_stack.quantity - inserted;
                        has_filled_any = true;
                        proof {
                            assert forall|j: int| 0 <= j < self.pockets@.len() implies pocket_quantity(#[trigger] self.pockets@[j]) >= 0 by {
                                if j != i {
                                    assert(self.pockets@[j] == before[j]);
                                }
                            }
                        }
                        if item_stack.quantity == 0 {
                            proof {
                                lemma_top_up_settled(old_pockets, stack0, item_volume as int, stack0.quantity as int, i + 1, len as int);
                                lemma_top_up_len(old_pockets, stack0, item_volume as int, stack0.quantity as int, len as int);
                                lemma_fill_empty_settled(self.pockets@, cs, stack0, item_volume as int, 0, 0, len as int);
                                assert(cs == old(self).cargo_start());
                                let res = add_partial_result(old_pockets, cs, stack0, item_volume as int);
                                assert(res.0 == self.pockets@);
                                assert(res.1 == 0);
                            }
                            return true;
                        }
                    }
                },
                None => {},
            }
        }
        let ghost first = self.pockets@;
        let ghost q1 = item_stack.quantity as int;
        let ghost any1 = has_filled_any;
        proof {
            lemma_top_up_len(old_pockets, stack0, item_volume as int, stack0.quantity as int, len as int);
        }
        let mut any2 = false;
        for i in 0..len
            invariant
                len == self.pockets@.len() == first.len() == old_pockets.len(),
                cs == self.cargo_start(),
                cs == old(self).cargo_start(),
                old_pockets == old(self).pockets@,
                stack0 == *old(item_stack),
                (first, q1, any1) == top_up_prefix(old_pockets, stack0, item_volume as int, stack0.quantity as int, len as int),
                stack0.quantity > 0,
                item_volume > 0,
                is_cargo == (stack0.item_type == ItemType::Cargo),
                item_stack.item_id == stack0.item_id,
                item_stack.item_type == stack0.item_type,
                item_stack.durability == stack0.durability,
                item_stack.quantity > 0,
                quantities_nonnegative(self.pockets@),
                (self.pockets@, item_stack.quantity as int, any2)
                    == fill_empty_prefix(first, cs, stack0, item_volume as int, q1, i as int),
                has_filled_any == (any1 || any2),
                self.entity_id == old(self).entity_id,
                self.inventory_index == old(self).inventory_index,
                self.cargo_index == old(self).cargo_index,
                self.owner_entity_id == old(self).owner_entity_id,
                self.player_owner_entity_id == old(self).player_owner_entity_id,
        {
            if self.is_pocket_cargo(i) == is_cargo {
                let p = self.pockets[i];
                match p.contents {
                    Some(_) => {},
                    None => {
                        let fit = p.can_fit_quantity(item_volume);
                        let inserted: i32 = if fit <= item_stack.quantity { fit } else { item_stack.quantity };
                        let ghost before = self.pockets@;
                        self.pockets.set(i, Pocket {
                            contents: Some(ItemStack {
                                item_id: item_stack.item_id,
                                item_type: item_stack.item_type,
                                quantity: inserted,
                                durability: item_stack.durability,
                            }),
                            ..p
                        });
                        item_stack.quantity = item_stack.quantity - inserted;
                        has_filled_any = true;
                        any2 = true;
                        proof {
                            assert forall|j: int| 0 <= j < self.pockets@.len() implies pocket_quantity(#[trigger] self.pockets@[j]) >= 0 by {
                                if j != i {
                                    assert(self.pockets@[j] == before[j]);
                                }
                            }
                        }
                        if item_stack.quantity == 0 {
                            proof {
                                lemma_fill_empty_settled(first, cs, stack0, item_volume as int, q1, i + 1, len as int);
                            }
                            return true;
                        }
                    },
                }
            }
        }
        has_filled_any
    }
}

} // verus!
