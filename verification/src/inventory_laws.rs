//! What the inventory operations keep: removing takes exactly what was asked
//! or nothing, adding puts in exactly what it says it did, and what is added
//! whole can be taken out again.
use vstd::prelude::*;
use crate::item_stack::{ItemStack, ItemType, Pocket, pocket_quantity, spec_can_fit};
use crate::inventory::{
    InventoryState, add_partial_result, contents_prefix, count, count_prefix, drain, positive_contents_prefix, fill_empty_prefix, fill_empty_step, holding, holds,
    lemma_holding_update, lemma_smallest, min_int, quantities_nonnegative, reduced, remove_prefix, requested,
    requested_prefix, smallest, stacks_with, take_prefix, take_step, top_up_prefix, top_up_step,
};

verus! {

/// What pocket `p` holds of item (`item_id`, `item_type`).
pub open spec fn held_in(p: Pocket, item_id: i32, item_type: ItemType) -> int {
    if holds(p, item_id, item_type) {
        pocket_quantity(p)
    } else {
        0
    }
}

/// Replacing one pocket changes the count of an item by the difference of
/// what the two pockets hold of it.
pub proof fn lemma_count_update(pockets: Seq<Pocket>, item_id: i32, item_type: ItemType, s: int, p: Pocket, n: int)
    requires
        0 <= s < pockets.len(),
        0 <= n <= pockets.len(),
    ensures
        count_prefix(pockets.update(s, p), item_id, item_type, n) == count_prefix(pockets, item_id, item_type, n) + if s
            < n {
            held_in(p, item_id, item_type) - held_in(pockets[s], item_id, item_type)
        } else {
            0
        },
    decreases n,
{
    if n > 0 {
        lemma_count_update(pockets, item_id, item_type, s, p, n - 1);
    }
}

/// Counts are never negative when no pocket holds a negative quantity.
pub proof fn lemma_count_nonnegative(pockets: Seq<Pocket>, item_id: i32, item_type: ItemType, n: int)
    requires
        quantities_nonnegative(pockets),
        0 <= n <= pockets.len(),
    ensures
        count_prefix(pockets, item_id, item_type, n) >= 0,
    decreases n,
{
    if n > 0 {
        lemma_count_nonnegative(pockets, item_id, item_type, n - 1);
        assert(pocket_quantity(pockets[n - 1]) >= 0);
    }
}

/// Nothing is counted when no pocket holds the item.
pub proof fn lemma_count_none_held(pockets: Seq<Pocket>, item_id: i32, item_type: ItemType, n: int)
    requires
        0 <= n <= pockets.len(),
        forall|j: int| 0 <= j < n ==> !holds(#[trigger] pockets[j], item_id, item_type),
    ensures
        count_prefix(pockets, item_id, item_type, n) == 0,
    decreases n,
{
    if n > 0 {
        lemma_count_none_held(pockets, item_id, item_type, n - 1);
    }
}

/// The room left in a pocket is never negative, and filling it never
/// overflows a quantity.
pub proof fn lemma_can_fit_bounds(p: Pocket, item_volume: int)
    requires
        item_volume > 0,
        pocket_quantity(p) >= 0,
    ensures
        0 <= spec_can_fit(p, item_volume),
        pocket_quantity(p) + spec_can_fit(p, item_volume) <= i32::MAX,
{
    let q = pocket_quantity(p);
    let v = p.volume as int;
    if !(v <= q * item_volume) {
        assert(v / item_volume >= q) by (nonlinear_arith)
            requires
                v > q * item_volume,
                item_volume > 0,
                q >= 0,
        ;
        assert(v / item_volume <= v) by (nonlinear_arith)
            requires
                v >= 0,
                item_volume > 0,
        ;
    }
}

/// Draining an item takes exactly the quantity asked when the pockets hold
/// enough of it, and fails otherwise; other items are not touched.
pub proof fn lemma_drain_exact(pockets: Seq<Pocket>, item_id: i32, item_type: ItemType, quantity: int)
    requires
        quantities_nonnegative(pockets),
        quantity > 0,
    ensures
        drain(pockets, item_id, item_type, quantity) is Some <==> count(pockets, item_id, item_type) >= quantity,
        drain(pockets, item_id, item_type, quantity) matches Some(after) ==> {
            &&& after.len() == pockets.len()
            &&& quantities_nonnegative(after)
            &&& count(after, item_id, item_type) == count(pockets, item_id, item_type) - quantity
            &&& forall|id: i32, ty: ItemType| (id, ty) != (item_id, item_type) ==> #[trigger] count(after, id, ty) == count(pockets, id, ty)
        },
    decreases holding(pockets, item_id, item_type),
{
    let n = pockets.len() as int;
    let s = smallest(pockets, item_id, item_type);
    lemma_smallest(pockets, item_id, item_type, n);
    if s == -1 {
        lemma_count_none_held(pockets, item_id, item_type, n);
    } else {
        let held = pocket_quantity(pockets[s]);
        assert(held >= 0);
        if held >= quantity {
            let after = pockets.update(s, reduced(pockets[s], quantity));
            lemma_count_update(pockets, item_id, item_type, s, reduced(pockets[s], quantity), n);
            assert forall|id: i32, ty: ItemType| (id, ty) != (item_id, item_type) implies #[trigger] count(after, id, ty) == count(
                pockets,
                id,
                ty,
            ) by {
                lemma_count_update(pockets, id, ty, s, reduced(pockets[s], quantity), n);
            }
            assert forall|j: int| 0 <= j < after.len() implies pocket_quantity(#[trigger] after[j]) >= 0 by {
                if j != s {
                    assert(after[j] == pockets[j]);
                }
            }
            lemma_count_nonnegative(after, item_id, item_type, n);
        } else {
            let emptied = Pocket { contents: None, ..pockets[s] };
            let next = pockets.update(s, emptied);
            lemma_holding_update(pockets, item_id, item_type, s, emptied, n);
            lemma_count_update(pockets, item_id, item_type, s, emptied, n);
            assert(quantities_nonnegative(next)) by {
                assert forall|j: int| 0 <= j < next.len() implies pocket_quantity(#[trigger] next[j]) >= 0 by {
                    if j != s {
                        assert(next[j] == pockets[j]);
                    }
                }
            }
            lemma_drain_exact(next, item_id, item_type, quantity - held);
            assert forall|id: i32, ty: ItemType| (id, ty) != (item_id, item_type) implies #[trigger] count(next, id, ty) == count(
                pockets,
                id,
                ty,
            ) by {
                lemma_count_update(pockets, id, ty, s, emptied, n);
            }
        }
    }
}

/// Removing the first `n` stacks one after the other.
pub proof fn lemma_remove_prefix_exact(pockets: Seq<Pocket>, stacks: Seq<ItemStack>, n: int)
    requires
        quantities_nonnegative(pockets),
        0 <= n <= stacks.len(),
    ensures
        remove_prefix(pockets, stacks, n) is Some <==> {
            &&& forall|k: int| 0 <= k < n ==> (#[trigger] stacks[k]).quantity >= 0
            &&& forall|k: int| 0 <= k < n ==> requested_prefix(stacks, (#[trigger] stacks[k]).item_id, stacks[k].item_type, n)
                <= count(pockets, stacks[k].item_id, stacks[k].item_type)
        },
        remove_prefix(pockets, stacks, n) matches Some(after) ==> {
            &&& after.len() == pockets.len()
            &&& quantities_nonnegative(after)
            &&& forall|id: i32, ty: ItemType| #[trigger] count(after, id, ty) == count(pockets, id, ty) - requested_prefix(
                stacks,
                id,
                ty,
                n,
            )
        },
    decreases n,
{
    if n > 0 {
        lemma_remove_prefix_exact(pockets, stacks, n - 1);
        let st = stacks[n - 1];
        match remove_prefix(pockets, stacks, n - 1) {
            None => {
                // an earlier stack was negative or asked too much; asking
                // more of the same item cannot help
                if (forall|k: int| 0 <= k < n ==> (#[trigger] stacks[k]).quantity >= 0) && (forall|k: int|
                    0 <= k < n ==> requested_prefix(stacks, (#[trigger] stacks[k]).item_id, stacks[k].item_type, n)
                        <= count(pockets, stacks[k].item_id, stacks[k].item_type)) {
                    assert forall|k: int| 0 <= k < n - 1 implies requested_prefix(
                        stacks,
                        (#[trigger] stacks[k]).item_id,
                        stacks[k].item_type,
                        n - 1,
                    ) <= count(pockets, stacks[k].item_id, stacks[k].item_type) by {
                        lemma_requested_monotone_on(stacks, stacks[k].item_id, stacks[k].item_type, n - 1, n);
                    }
                    assert(false);
                }
            },
            Some(cur) => {
                if st.quantity == 0 {
                    assert forall|k: int| 0 <= k < n implies requested_prefix(stacks, (#[trigger] stacks[k]).item_id, stacks[k].item_type, n)
                        <= count(pockets, stacks[k].item_id, stacks[k].item_type) by {
                        let id = stacks[k].item_id;
                        let ty = stacks[k].item_type;
                        lemma_count_nonnegative(cur, id, ty, cur.len() as int);
                        assert(count(cur, id, ty) == count(pockets, id, ty) - requested_prefix(stacks, id, ty, n - 1));
                    }
                    assert forall|id: i32, ty: ItemType| #[trigger] requested_prefix(stacks, id, ty, n) == requested_prefix(stacks, id, ty, n - 1) by {}
                } else if st.quantity < 0 {
                } else {
                    lemma_drain_exact(cur, st.item_id, st.item_type, st.quantity as int);
                    assert forall|id: i32, ty: ItemType| #[trigger] requested_prefix(stacks, id, ty, n) == requested_prefix(stacks, id, ty, n - 1)
                        + if (id, ty) == (st.item_id, st.item_type) { st.quantity as int } else { 0 } by {}
                    match drain(cur, st.item_id, st.item_type, st.quantity as int) {
                        Some(after) => {
                            assert forall|id: i32, ty: ItemType| #[trigger] count(after, id, ty) == count(pockets, id, ty) - requested_prefix(
                                stacks,
                                id,
                                ty,
                                n,
                            ) by {
                                assert(count(cur, id, ty) == count(pockets, id, ty) - requested_prefix(stacks, id, ty, n - 1));
                            }
                            assert forall|k: int| 0 <= k < n implies requested_prefix(stacks, (#[trigger] stacks[k]).item_id, stacks[k].item_type, n)
                                <= count(pockets, stacks[k].item_id, stacks[k].item_type) by {
                                let id = stacks[k].item_id;
                                let ty = stacks[k].item_type;
                                assert(count(after, id, ty) == count(pockets, id, ty) - requested_prefix(stacks, id, ty, n));
                                lemma_count_nonnegative(after, id, ty, after.len() as int);
                            }
                        },
                        None => {
                            assert(count(cur, st.item_id, st.item_type) == count(pockets, st.item_id, st.item_type) - requested_prefix(
                                stacks,
                                st.item_id,
                                st.item_type,
                                n - 1,
                            ));
                            assert(requested_prefix(stacks, stacks[n - 1].item_id, stacks[n - 1].item_type, n) > count(
                                pockets,
                                stacks[n - 1].item_id,
                                stacks[n - 1].item_type,
                            ));
                        },
                    }
                }
            },
        }
    }
}

/// Monotonicity of the quantity asked, with the hypothesis on the first `n`
/// stacks only.
pub proof fn lemma_requested_monotone_on(stacks: Seq<ItemStack>, item_id: i32, item_type: ItemType, i: int, n: int)
    requires
        0 <= i <= n <= stacks.len(),
        forall|k: int| 0 <= k < n ==> (#[trigger] stacks[k]).quantity >= 0,
    ensures
        requested_prefix(stacks, item_id, item_type, i) <= requested_prefix(stacks, item_id, item_type, n),
    decreases n - i,
{
    if n > i {
        lemma_requested_monotone_on(stacks, item_id, item_type, i, n - 1);
    }
}

/// Pockets `a` and `b` have the same volumes and locks, pocket by pocket.
pub open spec fn same_frames(a: Seq<Pocket>, b: Seq<Pocket>) -> bool {
    &&& a.len() == b.len()
    &&& forall|j: int| 0 <= j < a.len() ==> (#[trigger] a[j]).volume == b[j].volume && a[j].locked == b[j].locked
}

/// Replacing pocket `s` by `p` changes the count of an item by the
/// difference of what the two pockets hold of it (over all pockets).
proof fn lemma_count_replace(pockets: Seq<Pocket>, s: int, p: Pocket)
    requires
        0 <= s < pockets.len(),
    ensures
        forall|id: i32, ty: ItemType| #[trigger] count(pockets.update(s, p), id, ty) == count(pockets, id, ty) + held_in(p, id, ty)
            - held_in(pockets[s], id, ty),
{
    assert forall|id: i32, ty: ItemType| #[trigger] count(pockets.update(s, p), id, ty) == count(pockets, id, ty) + held_in(p, id, ty)
        - held_in(pockets[s], id, ty) by {
        lemma_count_update(pockets, id, ty, s, p, pockets.len() as int);
    }
}

/// The first pass of adding a stack (topping up pockets of the same item)
/// moves exactly what it inserts from the stack into the pockets.
pub proof fn lemma_top_up_conserves(pockets: Seq<Pocket>, stack: ItemStack, item_volume: int, quantity: int, n: int)
    requires
        quantities_nonnegative(pockets),
        item_volume > 0,
        quantity >= 0,
        0 <= n <= pockets.len(),
    ensures
        ({
            let r = top_up_prefix(pockets, stack, item_volume, quantity, n);
            &&& same_frames(r.0, pockets)
            &&& quantities_nonnegative(r.0)
            &&& 0 <= r.1 <= quantity
            &&& forall|id: i32, ty: ItemType| #[trigger] count(r.0, id, ty) == count(pockets, id, ty) + if (id, ty) == (
                stack.item_id,
                stack.item_type,
            ) {
                quantity - r.1
            } else {
                0
            }
        }),
    decreases n,
{
    if n > 0 {
        lemma_top_up_conserves(pockets, stack, item_volume, quantity, n - 1);
        let prev = top_up_prefix(pockets, stack, item_volume, quantity, n - 1);
        let p = prev.0[n - 1];
        let step = top_up_step(p, stack, item_volume, prev.1);
        if prev.1 != 0 && stacks_with(p, stack) {
            assert(pocket_quantity(p) >= 0);
            lemma_can_fit_bounds(p, item_volume);
            lemma_count_replace(prev.0, n - 1, step.0);
            let after = prev.0.update(n - 1, step.0);
            assert forall|j: int| 0 <= j < after.len() implies pocket_quantity(#[trigger] after[j]) >= 0 by {
                if j != n - 1 {
                    assert(after[j] == prev.0[j]);
                }
            }
        } else {
            assert(prev.0.update(n - 1, step.0) =~= prev.0);
        }
    }
}

/// The second pass of adding a stack (filling empty pockets of the right
/// kind) moves exactly what it inserts from the stack into the pockets.
pub proof fn lemma_fill_empty_conserves(
    pockets: Seq<Pocket>,
    cargo_start: int,
    stack: ItemStack,
    item_volume: int,
    quantity: int,
    n: int,
)
    requires
        quantities_nonnegative(pockets),
        item_volume > 0,
        quantity >= 0,
        0 <= n <= pockets.len(),
    ensures
        ({
            let r = fill_empty_prefix(pockets, cargo_start, stack, item_volume, quantity, n);
            &&& same_frames(r.0, pockets)
            &&& quantities_nonnegative(r.0)
            &&& 0 <= r.1 <= quantity
            &&& forall|id: i32, ty: ItemType| #[trigger] count(r.0, id, ty) == count(pockets, id, ty) + if (id, ty) == (
                stack.item_id,
                stack.item_type,
            ) {
                quantity - r.1
            } else {
                0
            }
        }),
    decreases n,
{
    if n > 0 {
        lemma_fill_empty_conserves(pockets, cargo_start, stack, item_volume, quantity, n - 1);
        let prev = fill_empty_prefix(pockets, cargo_start, stack, item_volume, quantity, n - 1);
        let p = prev.0[n - 1];
        let step = fill_empty_step(p, n - 1, cargo_start, stack, item_volume, prev.1);
        if prev.1 != 0 && (n - 1 >= cargo_start) == (stack.item_type == ItemType::Cargo) && p.contents is None {
            lemma_can_fit_bounds(p, item_volume);
            lemma_count_replace(prev.0, n - 1, step.0);
            let after = prev.0.update(n - 1, step.0);
            assert forall|j: int| 0 <= j < after.len() implies pocket_quantity(#[trigger] after[j]) >= 0 by {
                if j != n - 1 {
                    assert(after[j] == prev.0[j]);
                }
            }
        } else {
            assert(prev.0.update(n - 1, step.0) =~= prev.0);
        }
    }
}

/// Adding as much of a stack as fits puts into the pockets exactly what it
/// takes off the stack: the count of its item grows by the quantity added,
/// which is between nothing and all of it; no other item's count changes,
/// and no pocket's volume or lock.
pub proof fn law_add_partial_conserves_items(pockets: Seq<Pocket>, cargo_start: int, stack: ItemStack, item_volume: int)
    requires
        quantities_nonnegative(pockets),
        item_volume > 0,
        stack.quantity > 0,
    ensures
        ({
            let r = add_partial_result(pockets, cargo_start, stack, item_volume);
            &&& 0 <= r.1 <= stack.quantity
            &&& same_frames(r.0, pockets)
            &&& quantities_nonnegative(r.0)
            &&& count(r.0, stack.item_id, stack.item_type) == count(pockets, stack.item_id, stack.item_type) + stack.quantity - r.1
            &&& forall|id: i32, ty: ItemType| (id, ty) != (stack.item_id, stack.item_type) ==> #[trigger] count(r.0, id, ty) == count(
                pockets,
                id,
                ty,
            )
        }),
{
    let n = pockets.len() as int;
    lemma_top_up_conserves(pockets, stack, item_volume, stack.quantity as int, n);
    let first = top_up_prefix(pockets, stack, item_volume, stack.quantity as int, n);
    lemma_fill_empty_conserves(first.0, cargo_start, stack, item_volume, first.1, n);
    let second = fill_empty_prefix(first.0, cargo_start, stack, item_volume, first.1, n);
    assert(count(second.0, stack.item_id, stack.item_type) == count(first.0, stack.item_id, stack.item_type) + first.1 - second.1);
    assert(count(first.0, stack.item_id, stack.item_type) == count(pockets, stack.item_id, stack.item_type) + stack.quantity - first.1);
    assert forall|id: i32, ty: ItemType| (id, ty) != (stack.item_id, stack.item_type) implies #[trigger] count(second.0, id, ty)
        == count(pockets, id, ty) by {
        assert(count(second.0, id, ty) == count(first.0, id, ty));
        assert(count(first.0, id, ty) == count(pockets, id, ty));
    }
}

/// Removing a list of stacks takes exactly what they ask for, or nothing:
/// it succeeds exactly when no stack asks a negative quantity and, for each
/// item asked, the pockets hold at least what all the stacks together ask
/// of it; then every item's count drops by exactly what was asked of it.
pub proof fn law_remove_takes_exactly_what_is_asked(pockets: Seq<Pocket>, stacks: Seq<ItemStack>)
    requires
        quantities_nonnegative(pockets),
    ensures
        remove_prefix(pockets, stacks, stacks.len() as int) is Some <==> {
            &&& forall|k: int| 0 <= k < stacks.len() ==> (#[trigger] stacks[k]).quantity >= 0
            &&& forall|k: int| 0 <= k < stacks.len() ==> requested(stacks, (#[trigger] stacks[k]).item_id, stacks[k].item_type)
                <= count(pockets, stacks[k].item_id, stacks[k].item_type)
        },
        remove_prefix(pockets, stacks, stacks.len() as int) matches Some(after) ==> forall|id: i32, ty: ItemType| #[trigger]
            count(after, id, ty) == count(pockets, id, ty) - requested(stacks, id, ty),
{
    lemma_remove_prefix_exact(pockets, stacks, stacks.len() as int);
}

/// A stack that was added whole can be removed again, and removing it
/// brings every item's count back to what it was.
pub proof fn law_added_stack_can_be_removed(pockets: Seq<Pocket>, cargo_start: int, stack: ItemStack, item_volume: int)
    requires
        quantities_nonnegative(pockets),
        item_volume > 0,
        crate::inventory_fill::add_result(pockets, cargo_start, stack, item_volume) is Some,
    ensures
        ({
            let added = crate::inventory_fill::add_result(pockets, cargo_start, stack, item_volume)->0;
            remove_prefix(added, seq![stack], 1) matches Some(back) && forall|id: i32, ty: ItemType| #[trigger] count(back, id, ty)
                == count(pockets, id, ty)
        }),
{
    let added = crate::inventory_fill::add_result(pockets, cargo_start, stack, item_volume)->0;
    let stacks = seq![stack];
    assert(stacks[0] == stack);
    assert(remove_prefix(added, stacks, 0) == Some(added));
    assert(requested_prefix(stacks, stack.item_id, stack.item_type, 0) == 0);
    assert(requested_prefix(stacks, stack.item_id, stack.item_type, 1) == stack.quantity);
    if stack.quantity == 0 {
        assert(remove_prefix(added, stacks, 1) == Some(added));
    } else {
        law_add_partial_conserves_items(pockets, cargo_start, stack, item_volume);
        lemma_remove_prefix_exact(added, stacks, 1);
        lemma_count_nonnegative(pockets, stack.item_id, stack.item_type, pockets.len() as int);
        assert(remove_prefix(added, stacks, 1) is Some);
        let back = remove_prefix(added, stacks, 1)->0;
        assert forall|id: i32, ty: ItemType| #[trigger] count(back, id, ty) == count(pockets, id, ty) by {
            assert(requested_prefix(stacks, id, ty, 0) == 0);
            assert(count(back, id, ty) == count(added, id, ty) - requested_prefix(stacks, id, ty, 1));
            if (id, ty) != (stack.item_id, stack.item_type) {
                assert(count(added, id, ty) == count(pockets, id, ty));
            }
        }
    }
}

/// The stacks with a positive quantity held by the first `n` pockets are
/// the stacks they hold, in order, with the others filtered out.
proof fn lemma_positive_contents_filtered(pockets: Seq<Pocket>, n: int)
    ensures
        positive_contents_prefix(pockets, n) == contents_prefix(pockets, n).filter(|c: ItemStack| c.quantity > 0),
    decreases n,
{
    reveal(Seq::filter);
    if n > 0 {
        lemma_positive_contents_filtered(pockets, n - 1);
        let rest = contents_prefix(pockets, n - 1);
        let positive = |c: ItemStack| c.quantity > 0;
        match pockets[n - 1].contents {
            Some(c) => {
                let grown = rest.push(c);
                assert(grown.drop_last() =~= rest);
                assert(grown.last() == c);
                assert(grown.filter(positive) == if positive(c) { rest.filter(positive).push(c) } else { rest.filter(positive) });
            },
            None => {},
        }
    }
}

/// `as_item_stacks` is `get_all_content` with the stacks of no positive
/// quantity filtered out, in the same order.
pub proof fn law_item_stacks_are_positive_contents(inventory: InventoryState)
    ensures
        positive_contents_prefix(inventory.pockets@, inventory.pockets@.len() as int) == contents_prefix(
            inventory.pockets@,
            inventory.pockets@.len() as int,
        ).filter(|c: ItemStack| c.quantity > 0),
{
    lemma_positive_contents_filtered(inventory.pockets@, inventory.pockets@.len() as int);
}

/// Setting worn tools aside and putting them back gives the pockets back
/// unchanged: `exclude_used_items` and then `merge_used_items` with what it
/// set aside leave every pocket as it was.
pub proof fn law_worn_tools_put_back(pockets: Seq<Pocket>, full_durability: Map<i32, i32>)
    ensures
        crate::inventory_transfer::merged(
            crate::inventory_transfer::without_worn(pockets, full_durability),
            crate::inventory_transfer::only_worn(pockets, full_durability),
        ) == pockets,
{
    let back = crate::inventory_transfer::merged(
        crate::inventory_transfer::without_worn(pockets, full_durability),
        crate::inventory_transfer::only_worn(pockets, full_durability),
    );
    assert(back =~= pockets);
}

/// Removing a single stack: possible exactly when its quantity is at most
/// what is held of its item, and then it takes exactly that quantity.
pub proof fn lemma_remove_one(pockets: Seq<Pocket>, stack: ItemStack)
    requires
        quantities_nonnegative(pockets),
        stack.quantity >= 0,
    ensures
        crate::inventory_transfer::removed_one(pockets, stack) is Some <==> stack.quantity <= count(
            pockets,
            stack.item_id,
            stack.item_type,
        ),
        crate::inventory_transfer::removed_one(pockets, stack) matches Some(after) ==> {
            &&& quantities_nonnegative(after)
            &&& count(after, stack.item_id, stack.item_type) == count(pockets, stack.item_id, stack.item_type) - stack.quantity
        },
{
    let stacks = seq![stack];
    assert(stacks[0] == stack);
    assert(requested_prefix(stacks, stack.item_id, stack.item_type, 0) == 0);
    assert(requested_prefix(stacks, stack.item_id, stack.item_type, 1) == stack.quantity);
    lemma_remove_prefix_exact(pockets, stacks, 1);
}

/// What the first pocket holds is part of what the pockets hold.
proof fn lemma_first_pocket_counted(pockets: Seq<Pocket>, item_id: i32, item_type: ItemType)
    requires
        quantities_nonnegative(pockets),
        pockets.len() > 0,
    ensures
        held_in(pockets[0], item_id, item_type) <= count(pockets, item_id, item_type),
{
    let emptied = Pocket { contents: None, ..pockets[0] };
    lemma_count_update(pockets, item_id, item_type, 0, emptied, pockets.len() as int);
    let other = pockets.update(0, emptied);
    assert(quantities_nonnegative(other)) by {
        assert forall|j: int| 0 <= j < other.len() implies pocket_quantity(#[trigger] other[j]) >= 0 by {
            if j != 0 {
                assert(other[j] == pockets[j]);
            }
        }
    }
    lemma_count_nonnegative(other, item_id, item_type, other.len() as int);
}

/// Paying a sum in hex coins out of a wallet and an inventory takes exactly
/// that many coins out of the two together, when the wallet's first pocket
/// (the one looked at first) holds coins or nothing.
pub proof fn law_paying_coins_takes_exactly_the_sum(inv: Seq<Pocket>, wallet: Seq<Pocket>, amount: i32)
    requires
        quantities_nonnegative(inv),
        quantities_nonnegative(wallet),
        amount > 0,
        wallet.len() > 0 && wallet[0].contents is Some ==> holds(wallet[0], crate::item_stack::HEX_COIN_ID, ItemType::Item),
    ensures
        crate::inventory_transfer::pay_one(inv, wallet, ItemStack::spec_hex_coins(amount)) matches Some(res) ==> count(
            res.0,
            crate::item_stack::HEX_COIN_ID,
            ItemType::Item,
        ) + count(res.1, crate::item_stack::HEX_COIN_ID, ItemType::Item) == count(
            inv,
            crate::item_stack::HEX_COIN_ID,
            ItemType::Item,
        ) + count(wallet, crate::item_stack::HEX_COIN_ID, ItemType::Item) - amount,
{
    let coin = crate::item_stack::HEX_COIN_ID;
    let st = ItemStack::spec_hex_coins(amount);
    lemma_remove_one(inv, st);
    lemma_remove_one(wallet, st);
    if wallet.len() > 0 && wallet[0].contents is Some {
        let c = wallet[0].contents->0;
        assert(pocket_quantity(wallet[0]) >= 0);
        if c.quantity < amount {
            let rest = ItemStack { quantity: (amount - c.quantity) as i32, ..st };
            lemma_remove_one(inv, rest);
            lemma_remove_one(wallet, c);
            lemma_first_pocket_counted(wallet, coin, ItemType::Item);
        }
    }
}

/// Doubling an inventory keeps what it holds: the added pockets are empty.
pub proof fn law_double_keeps_contents(pockets: Seq<Pocket>, cargo_start: int, item_id: i32, item_type: ItemType)
    requires
        0 <= cargo_start <= pockets.len(),
    ensures
        count(crate::inventory::doubled_pockets(pockets, cargo_start), item_id, item_type) == count(pockets, item_id, item_type),
{
    let items = pockets.subrange(0, cargo_start);
    let cargo = pockets.subrange(cargo_start, pockets.len() as int);
    let blank = |p: Pocket| Pocket { volume: p.volume, contents: None, locked: false };
    lemma_count_concat(items, items.map_values(blank), item_id, item_type);
    lemma_count_concat(items + items.map_values(blank), cargo, item_id, item_type);
    lemma_count_concat(items + items.map_values(blank) + cargo, cargo.map_values(blank), item_id, item_type);
    lemma_count_none_held(items.map_values(blank), item_id, item_type, items.len() as int);
    lemma_count_none_held(cargo.map_values(blank), item_id, item_type, cargo.len() as int);
    lemma_count_concat(items, cargo, item_id, item_type);
    assert(items + cargo =~= pockets);
}

/// The count over two rows of pockets put end to end is the sum of their counts.
pub proof fn lemma_count_concat(a: Seq<Pocket>, b: Seq<Pocket>, item_id: i32, item_type: ItemType)
    ensures
        count(a + b, item_id, item_type) == count(a, item_id, item_type) + count(b, item_id, item_type),
    decreases b.len(),
{
    if b.len() > 0 {
        let b1 = b.drop_last();
        lemma_count_concat(a, b1, item_id, item_type);
        assert((a + b).drop_last() =~= a + b1);
        lemma_count_prefix_drop_last(a + b, item_id, item_type);
        lemma_count_prefix_drop_last(b, item_id, item_type);
    }
}

/// Counting all pockets is counting all but the last, plus the last.
proof fn lemma_count_prefix_drop_last(s: Seq<Pocket>, item_id: i32, item_type: ItemType)
    requires
        s.len() > 0,
    ensures
        count(s, item_id, item_type) == count(s.drop_last(), item_id, item_type) + held_in(s.last(), item_id, item_type),
{
    lemma_count_prefix_same(s, s.drop_last(), item_id, item_type, s.len() - 1);
}

/// Counts of two rows agree on a common prefix.
proof fn lemma_count_prefix_same(s: Seq<Pocket>, t: Seq<Pocket>, item_id: i32, item_type: ItemType, n: int)
    requires
        0 <= n <= s.len(),
        n <= t.len(),
        forall|j: int| 0 <= j < n ==> s[j] == t[j],
    ensures
        count_prefix(s, item_id, item_type, n) == count_prefix(t, item_id, item_type, n),
    decreases n,
{
    if n > 0 {
        lemma_count_prefix_same(s, t, item_id, item_type, n - 1);
    }
}

/// Taking part of an item out of the first `n` pockets moves exactly what
/// it takes: the item's count drops by the quantity taken, which is between
/// nothing and all that was asked; other items are not touched.
pub proof fn lemma_take_conserves(pockets: Seq<Pocket>, item_id: i32, item_type: ItemType, quantity: int, n: int)
    requires
        quantities_nonnegative(pockets),
        quantity >= 0,
        0 <= n <= pockets.len(),
    ensures
        ({
            let r = take_prefix(pockets, item_id, item_type, quantity, n);
            &&& r.0.len() == pockets.len()
            &&& quantities_nonnegative(r.0)
            &&& 0 <= r.1 <= quantity
            &&& forall|id: i32, ty: ItemType| #[trigger] count(r.0, id, ty) == count(pockets, id, ty) - if (id, ty) == (
                item_id,
                item_type,
            ) {
                quantity - r.1
            } else {
                0
            }
        }),
    decreases n,
{
    if n > 0 {
        lemma_take_conserves(pockets, item_id, item_type, quantity, n - 1);
        let prev = take_prefix(pockets, item_id, item_type, quantity, n - 1);
        let p = prev.0[n - 1];
        let step = take_step(p, item_id, item_type, prev.1);
        if prev.1 != 0 && holds(p, item_id, item_type) {
            assert(pocket_quantity(p) >= 0);
            lemma_count_replace(prev.0, n - 1, step.0);
            let after = prev.0.update(n - 1, step.0);
            assert forall|j: int| 0 <= j < after.len() implies pocket_quantity(#[trigger] after[j]) >= 0 by {
                if j != n - 1 {
                    assert(after[j] == prev.0[j]);
                }
            }
        } else {
            assert(prev.0.update(n - 1, step.0) =~= prev.0);
        }
    }
}

/// What a row of inventories holds of an item, over its first `k` inventories.
pub open spec fn row_count(pools: Seq<Seq<Pocket>>, item_id: i32, item_type: ItemType, k: int) -> int
    decreases k,
{
    if k <= 0 {
        0
    } else {
        row_count(pools, item_id, item_type, k - 1) + count(pools[k - 1], item_id, item_type)
    }
}

/// Every inventory of a row is free of negative quantities.
pub open spec fn row_nonnegative(pools: Seq<Seq<Pocket>>) -> bool {
    forall|k: int| 0 <= k < pools.len() ==> quantities_nonnegative(#[trigger] pools[k])
}

/// Replacing one inventory of a row changes the row's count by the change
/// of that inventory's count.
proof fn lemma_row_count_update(pools: Seq<Seq<Pocket>>, k: int, p: Seq<Pocket>, item_id: i32, item_type: ItemType, n: int)
    requires
        0 <= k < pools.len(),
        0 <= n <= pools.len(),
    ensures
        row_count(pools.update(k, p), item_id, item_type, n) == row_count(pools, item_id, item_type, n) + if k < n {
            count(p, item_id, item_type) - count(pools[k], item_id, item_type)
        } else {
            0
        },
    decreases n,
{
    if n > 0 {
        lemma_row_count_update(pools, k, p, item_id, item_type, n - 1);
    }
}

/// Taking a stack out of the first `k` inventories of a row, one after the
/// other, moves exactly what it takes out of the row.
pub proof fn lemma_take_across_conserves(pools: Seq<Seq<Pocket>>, stack: ItemStack, changed: Seq<bool>, k: int)
    requires
        row_nonnegative(pools),
        stack.quantity >= 0,
        0 <= k <= pools.len(),
    ensures
        ({
            let t = crate::inventory_pool::take_across(pools, stack, changed, k);
            &&& t.0.len() == pools.len()
            &&& row_nonnegative(t.0)
            &&& t.1.item_id == stack.item_id && t.1.item_type == stack.item_type
            &&& 0 <= t.1.quantity <= stack.quantity
            &&& forall|id: i32, ty: ItemType| #[trigger] row_count(t.0, id, ty, pools.len() as int) == row_count(
                pools,
                id,
                ty,
                pools.len() as int,
            ) - if (id, ty) == (stack.item_id, stack.item_type) {
                stack.quantity - t.1.quantity
            } else {
                0
            }
        }),
    decreases k,
{
    if k > 0 {
        lemma_take_across_conserves(pools, stack, changed, k - 1);
        let prev = crate::inventory_pool::take_across(pools, stack, changed, k - 1);
        let row = prev.0[k - 1];
        assert(quantities_nonnegative(row));
        let st = prev.1;
        let r = crate::inventory_pool::partial_take(row, st);
        if st.quantity > 0 {
            lemma_take_conserves(row, st.item_id, st.item_type, st.quantity as int, row.len() as int);
        }
        let after = prev.0.update(k - 1, r.0);
        assert forall|id: i32, ty: ItemType| #[trigger] row_count(after, id, ty, pools.len() as int) == row_count(
            prev.0,
            id,
            ty,
            pools.len() as int,
        ) + count(r.0, id, ty) - count(row, id, ty) by {
            lemma_row_count_update(prev.0, k - 1, r.0, id, ty, pools.len() as int);
        }
        assert forall|j: int| 0 <= j < after.len() implies quantities_nonnegative(#[trigger] after[j]) by {
            if j != k - 1 {
                assert(after[j] == prev.0[j]);
            }
        }
    }
}

/// A withdrawal from a row of inventories (the player's wallet, inventory
/// and nearby deployables) takes out of the row, item by item, exactly what
/// the stacks ask for, when no stack asks a negative quantity.
pub proof fn law_withdrawal_takes_exactly_what_is_asked(pools: Seq<Seq<Pocket>>, stacks: Seq<ItemStack>, n: int)
    requires
        row_nonnegative(pools),
        0 <= n <= stacks.len(),
        forall|i: int| 0 <= i < stacks.len() ==> (#[trigger] stacks[i]).quantity >= 0,
    ensures
        crate::inventory_pool::withdraw_prefix(pools, stacks, n) matches Some(res) ==> {
            &&& res.0.len() == pools.len()
            &&& row_nonnegative(res.0)
            &&& forall|id: i32, ty: ItemType| #[trigger] row_count(res.0, id, ty, pools.len() as int) == row_count(
                pools,
                id,
                ty,
                pools.len() as int,
            ) - requested_prefix(stacks, id, ty, n)
        },
    decreases n,
{
    if n > 0 {
        law_withdrawal_takes_exactly_what_is_asked(pools, stacks, n - 1);
        match crate::inventory_pool::withdraw_prefix(pools, stacks, n - 1) {
            Some(cur) => {
                let st = stacks[n - 1];
                lemma_take_across_conserves(cur.0, st, cur.1, cur.0.len() as int);
                let t = crate::inventory_pool::take_across(cur.0, st, cur.1, cur.0.len() as int);
                if t.1.quantity <= 0 {
                    assert forall|id: i32, ty: ItemType| #[trigger] row_count(t.0, id, ty, pools.len() as int) == row_count(
                        pools,
                        id,
                        ty,
                        pools.len() as int,
                    ) - requested_prefix(stacks, id, ty, n) by {
                        assert(row_count(cur.0, id, ty, pools.len() as int) == row_count(pools, id, ty, pools.len() as int)
                            - requested_prefix(stacks, id, ty, n - 1));
                        assert(row_count(t.0, id, ty, cur.0.len() as int) == row_count(cur.0, id, ty, cur.0.len() as int)
                            - if (id, ty) == (st.item_id, st.item_type) { st.quantity - t.1.quantity } else { 0 });
                    }
                }
            },
            None => {},
        }
    }
}

/// What the stacks from position `j` on ask of an item.
pub open spec fn requested_from(stacks: Seq<ItemStack>, item_id: i32, item_type: ItemType, j: int) -> int
    decreases stacks.len() - j,
{
    if j < 0 || j >= stacks.len() {
        0
    } else {
        requested_from(stacks, item_id, item_type, j + 1) + if stacks[j].item_id == item_id && stacks[j].item_type
            == item_type {
            stacks[j].quantity as int
        } else {
            0
        }
    }
}

/// Asking over a list with one more stack at its end.
proof fn lemma_requested_push(stacks: Seq<ItemStack>, x: ItemStack, item_id: i32, item_type: ItemType, n: int)
    requires
        0 <= n <= stacks.len(),
    ensures
        requested_prefix(stacks.push(x), item_id, item_type, n) == requested_prefix(stacks, item_id, item_type, n),
    decreases n,
{
    if n > 0 {
        lemma_requested_push(stacks, x, item_id, item_type, n - 1);
    }
}

/// Putting a stack into the first `k` inventories of a deposit row moves
/// exactly what it puts in from the stack into the row.
pub proof fn lemma_put_across_conserves(
    pools: Seq<Seq<Pocket>>,
    starts: Seq<int>,
    stack: ItemStack,
    volume: Option<i32>,
    changed: Seq<bool>,
    k: int,
)
    requires
        row_nonnegative(pools),
        stack.quantity >= 0,
        volume matches Some(v) ==> v > 0,
        0 <= k <= pools.len(),
    ensures
        ({
            let t = crate::inventory_pool::put_across(pools, starts, stack, volume, changed, k);
            &&& t.0.len() == pools.len()
            &&& row_nonnegative(t.0)
            &&& t.1.item_id == stack.item_id && t.1.item_type == stack.item_type
            &&& 0 <= t.1.quantity <= stack.quantity
            &&& forall|id: i32, ty: ItemType| #[trigger] row_count(t.0, id, ty, pools.len() as int) == row_count(
                pools,
                id,
                ty,
                pools.len() as int,
            ) + if (id, ty) == (stack.item_id, stack.item_type) {
                stack.quantity - t.1.quantity
            } else {
                0
            }
        }),
    decreases k,
{
    if k > 0 {
        lemma_put_across_conserves(pools, starts, stack, volume, changed, k - 1);
        let prev = crate::inventory_pool::put_across(pools, starts, stack, volume, changed, k - 1);
        if !(k - 1 == 0 && !crate::inventory_pool::is_coin(prev.1)) {
            let row = prev.0[k - 1];
            assert(quantities_nonnegative(row));
            let st = prev.1;
            let r = crate::inventory_pool::put_step(row, starts[k - 1], st, volume);
            if st.quantity > 0 {
                match volume {
                    Some(v) => {
                        law_add_partial_conserves_items(row, starts[k - 1], st, v as int);
                    },
                    None => {},
                }
            }
            let after = prev.0.update(k - 1, r.0);
            assert forall|id: i32, ty: ItemType| #[trigger] row_count(after, id, ty, pools.len() as int) == row_count(
                prev.0,
                id,
                ty,
                pools.len() as int,
            ) + count(r.0, id, ty) - count(row, id, ty) by {
                lemma_row_count_update(prev.0, k - 1, r.0, id, ty, pools.len() as int);
            }
            assert forall|j: int| 0 <= j < after.len() implies quantities_nonnegative(#[trigger] after[j]) by {
                if j != k - 1 {
                    assert(after[j] == prev.0[j]);
                }
            }
        }
    }
}

/// A deposit into a row of inventories loses and makes nothing: for every
/// item, what the row gained plus what was handed back as overflow is what
/// the deposited stacks held (when no stack holds a negative quantity and
/// every known volume is positive).
pub proof fn law_deposit_keeps_every_item(
    pools: Seq<Seq<Pocket>>,
    starts: Seq<int>,
    stacks: Seq<ItemStack>,
    volumes: Seq<Option<i32>>,
    n: int,
)
    requires
        row_nonnegative(pools),
        0 <= n <= stacks.len(),
        volumes.len() == stacks.len(),
        forall|i: int| 0 <= i < stacks.len() ==> (#[trigger] stacks[i]).quantity >= 0,
        crate::inventory_pool::known_volumes_positive(volumes),
    ensures
        ({
            let res = crate::inventory_pool::deposit_prefix(pools, starts, stacks, volumes, n);
            &&& res.0.len() == pools.len()
            &&& row_nonnegative(res.0)
            &&& forall|id: i32, ty: ItemType| #[trigger] row_count(res.0, id, ty, pools.len() as int) + requested_prefix(
                res.2,
                id,
                ty,
                res.2.len() as int,
            ) == row_count(pools, id, ty, pools.len() as int) + requested_from(stacks, id, ty, stacks.len() - n)
        }),
    decreases n,
{
    if n > 0 {
        law_deposit_keeps_every_item(pools, starts, stacks, volumes, n - 1);
        let prev = crate::inventory_pool::deposit_prefix(pools, starts, stacks, volumes, n - 1);
        let j = stacks.len() - n;
        let st = stacks[j];
        assert(volumes[j] matches Some(v) ==> v > 0);
        lemma_put_across_conserves(prev.0, starts, st, volumes[j], prev.1, prev.0.len() as int);
        let t = crate::inventory_pool::put_across(prev.0, starts, st, volumes[j], prev.1, prev.0.len() as int);
        assert forall|id: i32, ty: ItemType| #[trigger] row_count(t.0, id, ty, pools.len() as int) + requested_prefix(
            if t.1.quantity > 0 { prev.2.push(t.1) } else { prev.2 },
            id,
            ty,
            (if t.1.quantity > 0 { prev.2.push(t.1) } else { prev.2 }).len() as int,
        ) == row_count(pools, id, ty, pools.len() as int) + requested_from(stacks, id, ty, stacks.len() - n) by {
            assert(row_count(prev.0, id, ty, pools.len() as int) + requested_prefix(prev.2, id, ty, prev.2.len() as int)
                == row_count(pools, id, ty, pools.len() as int) + requested_from(stacks, id, ty, stacks.len() - (n - 1)));
            assert(row_count(t.0, id, ty, prev.0.len() as int) == row_count(prev.0, id, ty, prev.0.len() as int)
                + if (id, ty) == (st.item_id, st.item_type) { st.quantity - t.1.quantity } else { 0 });
            if t.1.quantity > 0 {
                lemma_requested_push(prev.2, t.1, id, ty, prev.2.len() as int);
                assert(prev.2.push(t.1)[prev.2.len() as int] == t.1);
            }
        }
    }
}

/// Paying rent ahead moves coins, never makes or loses them: the coins a
/// successful payment of `paid` takes out of the wallet and inventory
/// together are exactly the `paid` added to the rent paid ahead (when the
/// wallet's first pocket holds coins or nothing).
pub proof fn law_rent_payment_moves_coins(inv: Seq<Pocket>, wallet: Seq<Pocket>, paid: i32)
    requires
        quantities_nonnegative(inv),
        quantities_nonnegative(wallet),
        paid > 0,
        wallet.len() > 0 && wallet[0].contents is Some ==> holds(wallet[0], crate::item_stack::HEX_COIN_ID, ItemType::Item),
    ensures
        crate::inventory_transfer::pay_prefix(inv, wallet, seq![ItemStack::spec_hex_coins(paid)], 1) matches Some(res)
            ==> count(res.0, crate::item_stack::HEX_COIN_ID, ItemType::Item) + count(
            res.1,
            crate::item_stack::HEX_COIN_ID,
            ItemType::Item,
        ) + paid == count(inv, crate::item_stack::HEX_COIN_ID, ItemType::Item) + count(
            wallet,
            crate::item_stack::HEX_COIN_ID,
            ItemType::Item,
        ),
{
    let coins = seq![ItemStack::spec_hex_coins(paid)];
    assert(coins[0] == ItemStack::spec_hex_coins(paid));
    assert(crate::inventory_transfer::pay_prefix(inv, wallet, coins, 0) == Some((inv, wallet, false, false)));
    law_paying_coins_takes_exactly_the_sum(inv, wallet, paid);
}

/// Topping up leaves empty pockets empty.
proof fn lemma_top_up_keeps_empty(pockets: Seq<Pocket>, stack: ItemStack, item_volume: int, quantity: int, n: int, i: int)
    requires
        0 <= n <= pockets.len(),
        0 <= i < pockets.len(),
        pockets[i].contents is None,
    ensures
        top_up_prefix(pockets, stack, item_volume, quantity, n).0.len() == pockets.len(),
        top_up_prefix(pockets, stack, item_volume, quantity, n).0[i] == pockets[i],
    decreases n,
{
    if n > 0 {
        lemma_top_up_keeps_empty(pockets, stack, item_volume, quantity, n - 1, i);
    }
}

/// Filling empty pockets puts the stack only into pockets of its kind:
/// a pocket empty before and holding something after holds the stack's
/// item, in a cargo pocket exactly when it is cargo.
proof fn lemma_fill_matches_kind(
    pockets: Seq<Pocket>,
    cargo_start: int,
    stack: ItemStack,
    item_volume: int,
    quantity: int,
    n: int,
    i: int,
)
    requires
        0 <= n <= pockets.len(),
        0 <= i < pockets.len(),
        pockets[i].contents is None,
    ensures
        fill_empty_prefix(pockets, cargo_start, stack, item_volume, quantity, n).0.len() == pockets.len(),
        fill_empty_prefix(pockets, cargo_start, stack, item_volume, quantity, n).0[i].contents matches Some(c) ==> {
            &&& c.item_id == stack.item_id
            &&& c.item_type == stack.item_type
            &&& (c.item_type == ItemType::Cargo) == (i >= cargo_start)
        },
    decreases n,
{
    if n > 0 {
        lemma_fill_matches_kind(pockets, cargo_start, stack, item_volume, quantity, n - 1, i);
    }
}

/// Adding a stack only ever fills an empty pocket of the stack's kind: a
/// pocket that was empty and holds something afterwards holds the added
/// item, and it is a cargo pocket (at or past the cargo start) exactly
/// when the item is cargo.
pub proof fn law_add_fills_pockets_of_its_kind(pockets: Seq<Pocket>, cargo_start: int, stack: ItemStack, item_volume: int)
    ensures
        add_partial_result(pockets, cargo_start, stack, item_volume).0.len() == pockets.len(),
        forall|i: int|
            0 <= i < pockets.len() && pockets[i].contents is None && (#[trigger] add_partial_result(
                pockets,
                cargo_start,
                stack,
                item_volume,
            ).0[i]).contents is Some ==> {
                let c = add_partial_result(pockets, cargo_start, stack, item_volume).0[i].contents->0;
                &&& c.item_id == stack.item_id
                &&& c.item_type == stack.item_type
                &&& (c.item_type == ItemType::Cargo) == (i >= cargo_start)
            },
{
    let n = pockets.len() as int;
    let first = top_up_prefix(pockets, stack, item_volume, stack.quantity as int, n);
    crate::inventory::lemma_top_up_len(pockets, stack, item_volume, stack.quantity as int, n);
    lemma_fill_len(first.0, cargo_start, stack, item_volume, first.1, n);
    assert forall|i: int|
        0 <= i < pockets.len() && pockets[i].contents is None && (#[trigger] add_partial_result(
            pockets,
            cargo_start,
            stack,
            item_volume,
        ).0[i]).contents is Some implies {
            let c = add_partial_result(pockets, cargo_start, stack, item_volume).0[i].contents->0;
            &&& c.item_id == stack.item_id
            &&& c.item_type == stack.item_type
            &&& (c.item_type == ItemType::Cargo) == (i >= cargo_start)
        } by {
        lemma_top_up_keeps_empty(pockets, stack, item_volume, stack.quantity as int, n, i);
        lemma_fill_matches_kind(first.0, cargo_start, stack, item_volume, first.1, n, i);
    }
}

/// The second pass keeps the number of pockets.
proof fn lemma_fill_len(pockets: Seq<Pocket>, cargo_start: int, stack: ItemStack, item_volume: int, quantity: int, n: int)
    requires
        0 <= n <= pockets.len(),
    ensures
        fill_empty_prefix(pockets, cargo_start, stack, item_volume, quantity, n).0.len() == pockets.len(),
    decreases n,
{
    if n > 0 {
        lemma_fill_len(pockets, cargo_start, stack, item_volume, quantity, n - 1);
    }
}

} // verus!
