//! The inventories a building's functions give it.
use vstd::prelude::*;
use crate::inventory::InventoryState;
use crate::inventory_fill::same_header;
use crate::item_stack::Pocket;

verus! {

/// What a building function offers in storage.
#[derive(Clone, Copy, Debug, PartialEq, Eq, Structural)]
pub struct BuildingFunction {
    pub storage_slots: i32,
    pub cargo_slots: i32,
    pub item_slot_size: i32,
    pub cargo_slot_size: i32,
    /// Banks make an inventory per player on demand instead.
    pub is_bank: bool,
}

/// The inventory one storage function needs: its position among the
/// building's inventories, its pockets (items first), and their volumes.
#[derive(Clone, Copy, Debug, PartialEq, Eq, Structural)]
pub struct InventoryNeed {
    pub inventory_index: i32,
    pub num_pockets: i32,
    pub cargo_index: i32,
    pub item_slot_size: i32,
    pub cargo_slot_size: i32,
}

/// Whether a function stores anything in an inventory of the building.
pub open spec fn stores(f: BuildingFunction) -> bool {
    (f.storage_slots > 0 || f.cargo_slots > 0) && !f.is_bank
}

/// The inventories the first `n` functions need, in order.
pub open spec fn needs_of(functions: Seq<BuildingFunction>, n: int) -> Seq<InventoryNeed>
    decreases n,
{
    if n <= 0 {
        Seq::empty()
    } else {
        let before = needs_of(functions, n - 1);
        let f = functions[n - 1];
        if stores(f) {
            before.push(
                InventoryNeed {
                    inventory_index: before.len() as i32,
                    num_pockets: (f.storage_slots + f.cargo_slots) as i32,
                    cargo_index: f.storage_slots,
                    item_slot_size: f.item_slot_size,
                    cargo_slot_size: f.cargo_slot_size,
                },
            )
        } else {
            before
        }
    }
}

proof fn lemma_needs_len(functions: Seq<BuildingFunction>, n: int)
    requires
        0 <= n <= functions.len(),
    ensures
        needs_of(functions, n).len() <= n,
    decreases n,
{
    if n > 0 {
        lemma_needs_len(functions, n - 1);
    }
}

/// The inventories a building needs are numbered 0, 1, 2... in order, one
/// per storing function (banks and functions without slots give none),
/// each with the function's item slots first and its cargo slots after.
pub proof fn law_needs_are_numbered_in_order(functions: Seq<BuildingFunction>, n: int)
    requires
        0 <= n <= functions.len(),
        n <= i32::MAX,
        forall|i: int| 0 <= i < functions.len() ==> i32::MIN <= (#[trigger] functions[i]).storage_slots + functions[i].cargo_slots
            <= i32::MAX,
    ensures
        forall|k: int| 0 <= k < needs_of(functions, n).len() ==> (#[trigger] needs_of(functions, n)[k]).inventory_index == k,
        forall|k: int|
            #![trigger needs_of(functions, n)[k]]
            0 <= k < needs_of(functions, n).len() ==> exists|j: int|
                0 <= j < n && {
                    let f = #[trigger] functions[j];
                    &&& (f.storage_slots > 0 || f.cargo_slots > 0) && !f.is_bank
                    &&& needs_of(functions, n)[k].num_pockets == f.storage_slots + f.cargo_slots
                    &&& needs_of(functions, n)[k].cargo_index == f.storage_slots
                },
        (forall|j: int| 0 <= j < n ==> !stores(#[trigger] functions[j])) ==> needs_of(functions, n).len() == 0,
    decreases n,
{
    if n > 0 {
        law_needs_are_numbered_in_order(functions, n - 1);
        lemma_needs_len(functions, n - 1);
        let prev = needs_of(functions, n - 1);
        let out = needs_of(functions, n);
        assert forall|k: int| #![trigger out[k]] 0 <= k < out.len() implies exists|j: int|
            0 <= j < n && {
                let f = #[trigger] functions[j];
                &&& (f.storage_slots > 0 || f.cargo_slots > 0) && !f.is_bank
                &&& out[k].num_pockets == f.storage_slots + f.cargo_slots
                &&& out[k].cargo_index == f.storage_slots
            } by {
            if k < prev.len() {
                assert(out[k] == prev[k]);
                assert(prev[k] == needs_of(functions, n - 1)[k]);
                let j = choose|j: int|
                    0 <= j < n - 1 && {
                        let f = #[trigger] functions[j];
                        &&& (f.storage_slots > 0 || f.cargo_slots > 0) && !f.is_bank
                        &&& prev[k].num_pockets == f.storage_slots + f.cargo_slots
                        &&& prev[k].cargo_index == f.storage_slots
                    };
                assert(functions[j] == functions[j]);
            } else {
                assert(functions[n - 1] == functions[n - 1]);
            }
        }
    }
}

/// The inventories a building's storage functions need (banks aside),
/// numbered in order from 0.
pub fn inventory_needs(functions: &Vec<BuildingFunction>) -> (r: Vec<InventoryNeed>)
    requires
        functions@.len() <= i32::MAX,
        forall|i: int| 0 <= i < functions@.len() ==> i32::MIN <= (#[trigger] functions@[i]).storage_slots
            + functions@[i].cargo_slots <= i32::MAX,
    ensures
        r@ == needs_of(functions@, functions@.len() as int),
{
    let mut r: Vec<InventoryNeed> = Vec::new();
    let n = functions.len();
    let mut inventory_index: i32 = -1;
    let mut i: usize = 0;
    while i < n
        invariant
            i <= n,
            n == functions@.len(),
            n <= i32::MAX,
            forall|k: int| 0 <= k < functions@.len() ==> i32::MIN <= (#[trigger] functions@[k]).storage_slots
                + functions@[k].cargo_slots <= i32::MAX,
            r@ == needs_of(functions@, i as int),
            inventory_index == r@.len() - 1,
        decreases n - i,
    {
        proof {
            lemma_needs_len(functions@, i as int);
        }
        let f = functions[i];
        if (f.storage_slots > 0 || f.cargo_slots > 0) && !f.is_bank {
            inventory_index = inventory_index + 1;
            r.push(
                InventoryNeed {
                    inventory_index,
                    num_pockets: f.storage_slots + f.cargo_slots,
                    cargo_index: f.storage_slots,
                    item_slot_size: f.item_slot_size,
                    cargo_slot_size: f.cargo_slot_size,
                },
            );
        }
        i = i + 1;
    }
    r
}

/// Grows an existing inventory to the pockets a function now needs: the
/// missing pockets are added empty, of the function's item slot size; an
/// inventory as large or larger is left as it is. True when it grew.
pub fn grow_inventory(inventory: &mut InventoryState, need: InventoryNeed) -> (r: bool)
    requires
        old(inventory).pockets@.len() <= i32::MAX,
    ensures
        r == (need.num_pockets > old(inventory).pockets@.len()),
        r ==> final(inventory).pockets@ == old(inventory).pockets@ + Seq::new(
            (need.num_pockets - old(inventory).pockets@.len()) as nat,
            |i: int| Pocket { volume: need.item_slot_size, contents: None, locked: false },
        ),
        !r ==> final(inventory).pockets@ == old(inventory).pockets@,
        same_header(*final(inventory), *old(inventory)),
{
    let previous_pockets = inventory.pockets.len() as i32;
    if need.num_pockets > previous_pockets {
        let ghost before = inventory.pockets@;
        inventory.add_pockets(need.num_pockets - previous_pockets, need.item_slot_size);
        assert(inventory.pockets@ =~= before + Seq::new(
            (need.num_pockets - before.len()) as nat,
            |i: int| Pocket { volume: need.item_slot_size, contents: None, locked: false },
        ));
        true
    } else {
        false
    }
}

} // verus!
