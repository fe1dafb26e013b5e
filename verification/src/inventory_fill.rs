//! Adding stacks to an inventory: whole or not at all, several at once,
//! into one chosen pocket, and with what does not fit handed back.
use vstd::prelude::*;
use crate::item_stack::{ItemStack, ItemType, Pocket, pocket_quantity, spec_can_fit};
use crate::inventory::{
    InventoryState, add_partial_result, doubled_pockets, min_int, quantities_nonnegative, remove_prefix,
};

verus! {

/// Same entity, owners and layout indices: everything but the pockets.
pub open spec fn same_header(a: InventoryState, b: InventoryState) -> bool {
    &&& a.entity_id == b.entity_id
    &&& a.inventory_index == b.inventory_index
    &&& a.cargo_index == b.cargo_index
    &&& a.owner_entity_id == b.owner_entity_id
    &&& a.player_owner_entity_id == b.player_owner_entity_id
}

/// Every volume is positive.
pub open spec fn volumes_positive(volumes: Seq<i32>) -> bool {
    forall|i: int| 0 <= i < volumes.len() ==> #[trigger] volumes[i] > 0
}

/// The pockets after adding `stack` whole: unchanged for an empty stack,
/// `None` for a negative one or when not all of it fits.
pub open spec fn add_result(pockets: Seq<Pocket>, cargo_start: int, stack: ItemStack, item_volume: int) -> Option<Seq<Pocket>> {
    if stack.quantity == 0 {
        Some(pockets)
    } else if stack.quantity < 0 {
        None
    } else {
        let r = add_partial_result(pockets, cargo_start, stack, item_volume);
        if r.1 == 0 {
            Some(r.0)
        } else {
            None
        }
    }
}

/// Adding the first `n` stacks whole, one after the other.
pub open spec fn add_all_prefix(
    pockets: Seq<Pocket>,
    cargo_start: int,
    stacks: Seq<ItemStack>,
    volumes: Seq<i32>,
    n: int,
) -> Option<Seq<Pocket>>
    decreases n,
{
    if n <= 0 {
        Some(pockets)
    } else {
        match add_all_prefix(pockets, cargo_start, stacks, volumes, n - 1) {
            Some(p) => add_result(p, cargo_start, stacks[n - 1], volumes[n - 1] as int),
            None => None,
        }
    }
}

/// Adding as much of one stack as fits: (pockets after, quantity left).
/// A stack with no positive quantity changes nothing.
pub open spec fn partial_step(pockets: Seq<Pocket>, cargo_start: int, stack: ItemStack, item_volume: int) -> (Seq<Pocket>, int) {
    if stack.quantity <= 0 {
        (pockets, stack.quantity as int)
    } else {
        let r = add_partial_result(pockets, cargo_start, stack, item_volume);
        (r.0, r.1)
    }
}

/// The pockets after adding as much as fits of each of the first `n` stacks.
pub open spec fn partial_all_prefix(
    pockets: Seq<Pocket>,
    cargo_start: int,
    stacks: Seq<ItemStack>,
    volumes: Seq<i32>,
    n: int,
) -> Seq<Pocket>
    decreases n,
{
    if n <= 0 {
        pockets
    } else {
        partial_step(
            partial_all_prefix(pockets, cargo_start, stacks, volumes, n - 1),
            cargo_start,
            stacks[n - 1],
            volumes[n - 1] as int,
        ).0
    }
}

/// Quantity of stack `i` that did not fit when the stacks are added in order.
pub open spec fn left_after(pockets: Seq<Pocket>, cargo_start: int, stacks: Seq<ItemStack>, volumes: Seq<i32>, i: int) -> int {
    partial_step(partial_all_prefix(pockets, cargo_start, stacks, volumes, i), cargo_start, stacks[i], volumes[i] as int).1
}

/// What did not fit of the first `n` stacks, in order, each with the
/// quantity left over; stacks that went in whole are not listed.
pub open spec fn overflow_prefix(
    pockets: Seq<Pocket>,
    cargo_start: int,
    stacks: Seq<ItemStack>,
    volumes: Seq<i32>,
    n: int,
) -> Seq<ItemStack>
    decreases n,
{
    if n <= 0 {
        Seq::empty()
    } else {
        let before = overflow_prefix(pockets, cargo_start, stacks, volumes, n - 1);
        let left = left_after(pockets, cargo_start, stacks, volumes, n - 1);
        if left > 0 {
            before.push(ItemStack { quantity: left as i32, ..stacks[n - 1] })
        } else {
            before
        }
    }
}

/// The pockets after `add_at`: `None` when the stack does not belong in that
/// kind of pocket, the pocket holds another item, or the overflow does not
/// fit elsewhere.
pub open spec fn add_at_result(
    pockets: Seq<Pocket>,
    cargo_start: int,
    pocket_index: int,
    contents: ItemStack,
    item_volume: int,
) -> Option<Seq<Pocket>> {
    let q = contents.quantity as int;
    if q <= 0 {
        Some(pockets)
    } else if (pocket_index >= cargo_start) != (contents.item_type == ItemType::Cargo) {
        None
    } else {
        let p = pockets[pocket_index];
        let inserted = min_int(spec_can_fit(p, item_volume), q);
        let total: Option<int> = match p.contents {
            Some(cur) => if cur.item_id != contents.item_id { None } else { Some(inserted + cur.quantity) },
            None => Some(inserted),
        };
        match total {
            None => None,
            Some(t) => {
                let after = pockets.update(
                    pocket_index,
                    Pocket {
                        contents: InventoryState::stored_contents(Some(ItemStack { quantity: t as i32, ..contents })),
                        volume: p.volume,
                        locked: false,
                    },
                );
                if q > inserted {
                    add_result(after, cargo_start, ItemStack { quantity: (q - inserted) as i32, ..contents }, item_volume)
                } else {
                    Some(after)
                }
            },
        }
    }
}

impl InventoryState {
    /// Adds `item_stack` whole (its items having volume `item_volume`), or
    /// leaves the inventory as it was and returns false when it does not fit
    /// or its quantity is negative. An empty stack is added trivially.
    pub fn add(&mut self, item_stack: ItemStack, item_volume: i32) -> (r: bool)
        requires
            item_volume > 0,
            quantities_nonnegative(old(self).pockets@),
        ensures
            same_header(*final(self), *old(self)),
            quantities_nonnegative(final(self).pockets@),
            match add_result(old(self).pockets@, old(self).cargo_start(), item_stack, item_volume as int) {
                Some(p) => r && final(self).pockets@ == p,
                None => !r && final(self).pockets@ == old(self).pockets@,
            },
    {
        let mut stack_copy = item_stack;
        let mut inventory_copy = self.clone();
        inventory_copy.add_partial(&mut stack_copy, item_volume);
        if stack_copy.quantity == 0 {
            self.pockets = inventory_copy.pockets;
            return true;
        }
        false
    }

    /// Whether `item_stack` would fit whole.
    pub fn fits(&self, item_stack: ItemStack, item_volume: i32) -> (r: bool)
        requires
            item_volume > 0,
            quantities_nonnegative(self.pockets@),
        ensures
            r == add_result(self.pockets@, self.cargo_start(), item_stack, item_volume as int) is Some,
    {
        let mut inventory_copy = self.clone();
        inventory_copy.add(item_stack, item_volume)
    }

    /// Whether all of `item_stacks` would fit whole, added one after the
    /// other; `volumes[i]` is the volume of the items of stack `i`.
    pub fn fits_all(&self, item_stacks: &Vec<ItemStack>, volumes: &Vec<i32>) -> (r: bool)
        requires
            volumes@.len() == item_stacks@.len(),
            volumes_positive(volumes@),
            quantities_nonnegative(self.pockets@),
        ensures
            r == add_all_prefix(self.pockets@, self.cargo_start(), item_stacks@, volumes@, item_stacks@.len() as int) is Some,
    {
        let mut inventory_copy = self.clone();
        inventory_copy.add_multiple(item_stacks, volumes)
    }

    /// Whether all of `to_add` would fit once `to_remove` has been taken out
    /// (the removal being skipped when it fails).
    pub fn fits_all_after_remove(&self, to_add: &Vec<ItemStack>, volumes: &Vec<i32>, to_remove: &Vec<ItemStack>) -> (r: bool)
        requires
            volumes@.len() == to_add@.len(),
            volumes_positive(volumes@),
            quantities_nonnegative(self.pockets@),
        ensures
            ({
                let start = match remove_prefix(self.pockets@, to_remove@, to_remove@.len() as int) {
                    Some(p) => p,
                    None => self.pockets@,
                };
                r == add_all_prefix(start, self.cargo_start(), to_add@, volumes@, to_add@.len() as int) is Some
            }),
    {
        let mut inventory_copy = self.clone();
        inventory_copy.remove(to_remove);
        inventory_copy.fits_all(to_add, volumes)
    }

    /// Adds all of `item_stacks` whole, one after the other, or nothing at
    /// all (returning false) when one of them does not fit.
    pub fn add_multiple(&mut self, item_stacks: &Vec<ItemStack>, volumes: &Vec<i32>) -> (r: bool)
        requires
            volumes@.len() == item_stacks@.len(),
            volumes_positive(volumes@),
            quantities_nonnegative(old(self).pockets@),
        ensures
            same_header(*final(self), *old(self)),
            quantities_nonnegative(final(self).pockets@),
            match add_all_prefix(old(self).pockets@, old(self).cargo_start(), item_stacks@, volumes@, item_stacks@.len() as int) {
                Some(p) => r && final(self).pockets@ == p,
                None => !r && final(self).pockets@ == old(self).pockets@,
            },
    {
        let mut inventory_copy = self.clone();
        let n = item_stacks.len();
        for i in 0..n
            invariant
                n == item_stacks@.len() == volumes@.len(),
                volumes_positive(volumes@),
                inventory_copy.cargo_index == old(self).cargo_index,
                quantities_nonnegative(inventory_copy.pockets@),
                add_all_prefix(old(self).pockets@, old(self).cargo_start(), item_stacks@, volumes@, i as int)
                    == Some(inventory_copy.pockets@),
                self.pockets@ == old(self).pockets@,
                quantities_nonnegative(old(self).pockets@),
                same_header(*self, *old(self)),
        {
            assert(volumes@[i as int] > 0);
            if !inventory_copy.add(item_stacks[i], volumes[i]) {
                proof {
                    lemma_add_all_failed(old(self).pockets@, old(self).cargo_start(), item_stacks@, volumes@, i + 1, n as int);
                }
                return false;
            }
        }
        self.pockets = inventory_copy.pockets;
        true
    }

    /// Adds as much as fits of each of `item_stacks`, one after the other;
    /// each stack is left with the quantity that did not fit.
    pub fn add_multiple_partial(&mut self, item_stacks: &mut Vec<ItemStack>, volumes: &Vec<i32>)
        requires
            volumes@.len() == old(item_stacks)@.len(),
            volumes_positive(volumes@),
            quantities_nonnegative(old(self).pockets@),
        ensures
            same_header(*final(self), *old(self)),
            quantities_nonnegative(final(self).pockets@),
            final(self).pockets@ == partial_all_prefix(
                old(self).pockets@,
                old(self).cargo_start(),
                old(item_stacks)@,
                volumes@,
                old(item_stacks)@.len() as int,
            ),
            final(item_stacks)@.len() == old(item_stacks)@.len(),
            forall|i: int| 0 <= i < old(item_stacks)@.len() ==> #[trigger] final(item_stacks)@[i] == (ItemStack {
                quantity: left_after(old(self).pockets@, old(self).cargo_start(), old(item_stacks)@, volumes@, i) as i32,
                ..old(item_stacks)@[i]
            }),
    {
        let ghost stacks0 = item_stacks@;
        let ghost pockets0 = self.pockets@;
        let ghost cs = self.cargo_start();
        let n = item_stacks.len();
        for i in 0..n
            invariant
                n == item_stacks@.len() == volumes@.len() == stacks0.len(),
                stacks0 == old(item_stacks)@,
                pockets0 == old(self).pockets@,
                cs == old(self).cargo_start(),
                cs == self.cargo_start(),
                volumes_positive(volumes@),
                quantities_nonnegative(self.pockets@),
                self.pockets@ == partial_all_prefix(pockets0, cs, stacks0, volumes@, i as int),
                forall|j: int| i <= j < n ==> item_stacks@[j] == stacks0[j],
                forall|j: int| 0 <= j < i ==> #[trigger] item_stacks@[j] == (ItemStack {
                    quantity: left_after(pockets0, cs, stacks0, volumes@, j) as i32,
                    ..stacks0[j]
                }),
                same_header(*self, *old(self)),
        {
            let mut stack = item_stacks[i];
            assert(volumes@[i as int] > 0);
            self.add_partial(&mut stack, volumes[i]);
            assert(stack == ItemStack {
                quantity: left_after(pockets0, cs, stacks0, volumes@, i as int) as i32,
                ..stacks0[i as int]
            });
            item_stacks.set(i, stack);
        }
    }

    /// Adds as much as fits of each of `item_stacks`, one after the other,
    /// and returns what did not fit (to be dropped next to the owner).
    pub fn add_multiple_with_overflow(&mut self, item_stacks: &Vec<ItemStack>, volumes: &Vec<i32>) -> (overflow: Vec<ItemStack>)
        requires
            volumes@.len() == item_stacks@.len(),
            volumes_positive(volumes@),
            quantities_nonnegative(old(self).pockets@),
        ensures
            same_header(*final(self), *old(self)),
            quantities_nonnegative(final(self).pockets@),
            final(self).pockets@ == partial_all_prefix(
                old(self).pockets@,
                old(self).cargo_start(),
                item_stacks@,
                volumes@,
                item_stacks@.len() as int,
            ),
            overflow@ == overflow_prefix(
                old(self).pockets@,
                old(self).cargo_start(),
                item_stacks@,
                volumes@,
                item_stacks@.len() as int,
            ),
    {
        let ghost pockets0 = self.pockets@;
        let ghost cs = self.cargo_start();
        let mut overflow: Vec<ItemStack> = Vec::new();
        let n = item_stacks.len();
        for i in 0..n
            invariant
                n == item_stacks@.len() == volumes@.len(),
                pockets0 == old(self).pockets@,
                cs == old(self).cargo_start(),
                cs == self.cargo_start(),
                volumes_positive(volumes@),
                quantities_nonnegative(self.pockets@),
                self.pockets@ == partial_all_prefix(pockets0, cs, item_stacks@, volumes@, i as int),
                overflow@ == overflow_prefix(pockets0, cs, item_stacks@, volumes@, i as int),
                same_header(*self, *old(self)),
        {
            let mut stack = item_stacks[i];
            assert(volumes@[i as int] > 0);
            self.add_partial(&mut stack, volumes[i]);
            if stack.quantity > 0 {
                overflow.push(stack);
            }
        }
        overflow
    }

    /// Adds `contents` into pocket `pocket_index` as far as it fits there
    /// (merging with what the pocket holds of the same item), then the rest
    /// anywhere it fits. All or nothing: false, with the inventory unchanged,
    /// when the stack's kind does not match the pocket's, the pocket holds
    /// another item, or the rest does not fit. An empty stack is a success.
    pub fn add_at(&mut self, pocket_index: usize, contents: ItemStack, item_volume: i32) -> (r: bool)
        requires
            item_volume > 0,
            quantities_nonnegative(old(self).pockets@),
            contents.quantity > 0 && ((pocket_index as int >= old(self).cargo_start()) == (contents.item_type == ItemType::Cargo))
                ==> pocket_index < old(self).pockets@.len(),
        ensures
            same_header(*final(self), *old(self)),
            quantities_nonnegative(final(self).pockets@),
            match add_at_result(old(self).pockets@, old(self).cargo_start(), pocket_index as int, contents, item_volume as int) {
                Some(p) => r && final(self).pockets@ == p,
                None => !r && final(self).pockets@ == old(self).pockets@,
            },
    {
        let quantity = contents.quantity;
        if quantity <= 0 {
            return true;
        }
        let item_id = contents.item_id;
        let is_cargo = self.is_pocket_cargo(pocket_index);
        if is_cargo != (contents.item_type == ItemType::Cargo) {
            return false;
        }
        let pocket = self.pockets[pocket_index];
        proof {
            assert(pocket_quantity(self.pockets@[pocket_index as int]) >= 0);
        }
        let fit = pocket.can_fit_quantity(item_volume);
        let inserted: i32 = if fit <= quantity { fit } else { quantity };
        let mut item_stack = contents.clone_with_quantity(inserted);
        match pocket.contents {
            Some(current) => {
                if current.item_id != item_id {
                    return false;
                }
                item_stack.quantity = item_stack.quantity + current.quantity;
            },
            None => {},
        }
        let mut inventory_copy = self.clone();
        inventory_copy.set_at(pocket_index, Some(item_stack));
        proof {
            let before = self.pockets@;
            assert forall|j: int| 0 <= j < inventory_copy.pockets@.len() implies
                pocket_quantity(#[trigger] inventory_copy.pockets@[j]) >= 0 by {
                if j != pocket_index as int {
                    assert(inventory_copy.pockets@[j] == before[j]);
                }
            }
        }
        if quantity > inserted {
            let remaining_stack = contents.clone_with_quantity(quantity - inserted);
            if !inventory_copy.add(remaining_stack, item_volume) {
                return false;
            }
        }
        self.pockets = inventory_copy.pockets;
        true
    }
}

/// Once adding a prefix of the stacks fails, adding any longer prefix fails.
pub proof fn lemma_add_all_failed(
    pockets: Seq<Pocket>,
    cargo_start: int,
    stacks: Seq<ItemStack>,
    volumes: Seq<i32>,
    i: int,
    n: int,
)
    requires
        0 <= i <= n,
        add_all_prefix(pockets, cargo_start, stacks, volumes, i) is None,
    ensures
        add_all_prefix(pockets, cargo_start, stacks, volumes, n) is None,
    decreases n - i,
{
    if n > i {
        lemma_add_all_failed(pockets, cargo_start, stacks, volumes, i, n - 1);
    }
}

/// Where the cargo pockets start for a cargo index `cargo_index`.
pub open spec fn start_of(cargo_index: int) -> int {
    ((cargo_index as i32) as usize) as int
}

/// An inventory's pockets, inventory index and cargo index after doubling
/// it `k` times.
pub open spec fn doublings(pockets: Seq<Pocket>, inventory_index: int, cargo_index: int, k: nat) -> (Seq<Pocket>, int, int)
    decreases k,
{
    if k == 0 {
        (pockets, inventory_index, cargo_index)
    } else {
        let (p, i, c) = doublings(pockets, inventory_index, cargo_index, (k - 1) as nat);
        (doubled_pockets(p, start_of(c)), 2 * i, 2 * c)
    }
}

/// Whether `double` can be called on the inventory doubled `k` times: its
/// cargo start lies within its pockets and its indices double within `i32`.
pub open spec fn doublable(inventory: InventoryState, k: nat) -> bool {
    let (p, i, c) = doublings(inventory.pockets@, inventory.inventory_index as int, inventory.cargo_index as int, k);
    &&& start_of(c) <= p.len()
    &&& i32::MIN <= 2 * i <= i32::MAX
    &&& i32::MIN <= 2 * c <= i32::MAX
}

/// The pockets after adding `stack` whole to the inventory doubled `k`
/// times, if it fits there.
pub open spec fn added_after_doublings(inventory: InventoryState, stack: ItemStack, item_volume: int, k: nat) -> Option<Seq<Pocket>> {
    let (p, i, c) = doublings(inventory.pockets@, inventory.inventory_index as int, inventory.cargo_index as int, k);
    add_result(p, start_of(c), stack, item_volume)
}

/// Doubling keeps the quantities of an inventory non-negative.
proof fn lemma_doubling_nonnegative(pockets: Seq<Pocket>, cargo_start: int)
    requires
        quantities_nonnegative(pockets),
        0 <= cargo_start <= pockets.len(),
    ensures
        quantities_nonnegative(doubled_pockets(pockets, cargo_start)),
{
    let d = doubled_pockets(pockets, cargo_start);
    let c = cargo_start;
    let n = pockets.len() as int;
    assert forall|i: int| 0 <= i < d.len() implies pocket_quantity(#[trigger] d[i]) >= 0 by {
        if i < c {
            assert(d[i] == pockets[i]);
        } else if i < 2 * c {
        } else if i < n + c {
            assert(d[i] == pockets[i - c]);
        } else {
        }
    }
}

impl InventoryState {
    /// Adds `stack` whole (of volume `item_volume` per item), doubling the
    /// inventory as many times as it takes to fit. The inventory must fit
    /// it after some number of doublings, each of them possible.
    pub fn add_doubling_until_fits(&mut self, stack: ItemStack, item_volume: i32)
        requires
            item_volume > 0,
            quantities_nonnegative(old(self).pockets@),
            exists|k: nat| #[trigger] added_after_doublings(*old(self), stack, item_volume as int, k) is Some && forall|j: nat|
                j < k ==> doublable(*old(self), j),
        ensures
            final(self).entity_id == old(self).entity_id,
            final(self).owner_entity_id == old(self).owner_entity_id,
            final(self).player_owner_entity_id == old(self).player_owner_entity_id,
            quantities_nonnegative(final(self).pockets@),
            exists|k: nat|
                #![trigger added_after_doublings(*old(self), stack, item_volume as int, k)]
            {
                let (p, i, c) = doublings(old(self).pockets@, old(self).inventory_index as int, old(self).cargo_index as int, k);
                &&& forall|j: nat| j < k ==> #[trigger] added_after_doublings(*old(self), stack, item_volume as int, j) is None
                &&& added_after_doublings(*old(self), stack, item_volume as int, k) == Some(final(self).pockets@)
                &&& final(self).inventory_index == i
                &&& final(self).cargo_index == c
            },
    {
        let ghost start = *old(self);
        let ghost k0: nat = choose|k: nat| #[trigger] added_after_doublings(start, stack, item_volume as int, k) is Some && forall|j: nat|
            j < k ==> doublable(start, j);
        let ghost mut j: nat = 0;
        loop
            invariant_except_break
                (self.pockets@, self.inventory_index as int, self.cargo_index as int) == doublings(
                    start.pockets@,
                    start.inventory_index as int,
                    start.cargo_index as int,
                    j,
                ),
            invariant
                item_volume > 0,
                j <= k0,
                added_after_doublings(start, stack, item_volume as int, k0) is Some,
                forall|jj: nat| jj < k0 ==> doublable(start, jj),
                forall|jj: nat| jj < j ==> #[trigger] added_after_doublings(start, stack, item_volume as int, jj) is None,
                quantities_nonnegative(self.pockets@),
                self.entity_id == start.entity_id,
                self.owner_entity_id == start.owner_entity_id,
                self.player_owner_entity_id == start.player_owner_entity_id,
            ensures
                exists|k: nat|
                    #![trigger added_after_doublings(start, stack, item_volume as int, k)]
                {
                    let (p, i, c) = doublings(start.pockets@, start.inventory_index as int, start.cargo_index as int, k);
                    &&& forall|jj: nat| jj < k ==> #[trigger] added_after_doublings(start, stack, item_volume as int, jj) is None
                    &&& added_after_doublings(start, stack, item_volume as int, k) == Some(self.pockets@)
                    &&& self.inventory_index == i
                    &&& self.cargo_index == c
                },
                quantities_nonnegative(self.pockets@),
                self.entity_id == start.entity_id,
                self.owner_entity_id == start.owner_entity_id,
                self.player_owner_entity_id == start.player_owner_entity_id,
            decreases k0 - j,
        {
            assert(self.cargo_start() == start_of(self.cargo_index as int));
            if self.add(stack, item_volume) {
                proof {
                    let (p, i, c) = doublings(start.pockets@, start.inventory_index as int, start.cargo_index as int, j);
                    assert(added_after_doublings(start, stack, item_volume as int, j) == Some(self.pockets@));
                    assert(self.inventory_index == i && self.cargo_index == c);
                }
                break;
            }
            assert(added_after_doublings(start, stack, item_volume as int, j) is None);
            assert(j != k0);
            assert(doublable(start, j));
            proof {
                lemma_doubling_nonnegative(self.pockets@, self.cargo_start());
            }
            self.double();
            proof {
                j = j + 1;
            }
        }
    }
}

} // verus!
