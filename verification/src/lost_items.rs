//! Lost items of a building being destroyed: what each player gets back
//! from the crafts that were running in it, and whether a market was the
//! last one of its claim.
use vstd::prelude::*;
use std::collections::HashMap;
use crate::item_stack::ItemStack;
use crate::passive_craft::PassiveCraftStatus;

verus! {

broadcast use vstd::std_specs::hash::group_hash_axioms;

/// A passive craft of the building: its owner, its status, and the items
/// its recipe crafts and consumes.
#[derive(Clone, Debug)]
pub struct LostCraft {
    pub owner_entity_id: u64,
    pub status: PassiveCraftStatus,
    pub outputs: Vec<ItemStack>,
    pub inputs: Vec<ItemStack>,
}

/// An active craft of the building: its owner, how many of its crafts were
/// completed and how many are refunded, and the items its recipe crafts
/// and consumes (once per craft).
#[derive(Clone, Debug)]
pub struct LostAction {
    pub owner_entity_id: u64,
    pub completed_crafts: i32,
    pub refunded_crafts: i32,
    pub outputs: Vec<ItemStack>,
    pub inputs: Vec<ItemStack>,
}

/// Each stack taken `times` times.
pub open spec fn scaled(stacks: Seq<ItemStack>, times: i32) -> Seq<ItemStack> {
    stacks.map_values(|s: ItemStack| ItemStack { quantity: (s.quantity * times) as i32, ..s })
}

/// Every stack of `stacks` can be taken `times` times within an `i32`.
pub open spec fn scalable(stacks: Seq<ItemStack>, times: i32) -> bool {
    forall|i: int| 0 <= i < stacks.len() ==> i32::MIN <= #[trigger] stacks[i].quantity * times <= i32::MAX
}

/// What a passive craft gives back: its outputs once complete, else its
/// inputs.
pub open spec fn craft_lost(c: LostCraft) -> Seq<ItemStack> {
    if c.status == PassiveCraftStatus::Complete {
        c.outputs@
    } else {
        c.inputs@
    }
}

/// What an active craft gives back: the outputs of its completed crafts,
/// then the inputs of its refunded ones.
pub open spec fn action_lost(a: LostAction) -> Seq<ItemStack> {
    scaled(a.outputs@, a.completed_crafts) + scaled(a.inputs@, a.refunded_crafts)
}

/// `owed` with `items` added after what `owner` was already owed.
pub open spec fn owe(owed: Map<u64, Seq<ItemStack>>, owner: u64, items: Seq<ItemStack>) -> Map<u64, Seq<ItemStack>> {
    owed.insert(owner, (if owed.contains_key(owner) { owed[owner] } else { Seq::empty() }) + items)
}

/// What the first `n` passive crafts owe, by owner.
pub open spec fn owed_by_crafts(crafts: Seq<LostCraft>, n: int) -> Map<u64, Seq<ItemStack>>
    decreases n,
{
    if n <= 0 {
        Map::empty()
    } else {
        owe(owed_by_crafts(crafts, n - 1), crafts[n - 1].owner_entity_id, craft_lost(crafts[n - 1]))
    }
}

/// `owed`, then what the first `n` active crafts owe, by owner.
pub open spec fn owed_by_actions(owed: Map<u64, Seq<ItemStack>>, actions: Seq<LostAction>, n: int) -> Map<u64, Seq<ItemStack>>
    decreases n,
{
    if n <= 0 {
        owed
    } else {
        owe(owed_by_actions(owed, actions, n - 1), actions[n - 1].owner_entity_id, action_lost(actions[n - 1]))
    }
}

/// The lost items of a crafting building, by owner: the passive crafts in
/// order, then the active ones.
pub open spec fn crafting_lost(crafts: Seq<LostCraft>, actions: Seq<LostAction>) -> Map<u64, Seq<ItemStack>> {
    owed_by_actions(owed_by_crafts(crafts, crafts.len() as int), actions, actions.len() as int)
}

/// The lists of a map, taken by their contents.
pub open spec fn lists(m: Map<u64, Vec<ItemStack>>) -> Map<u64, Seq<ItemStack>> {
    Map::new(|k: u64| m.contains_key(k), |k: u64| m[k]@)
}

/// Each stack taken `times` times.
fn scale_stacks(stacks: &Vec<ItemStack>, times: i32) -> (r: Vec<ItemStack>)
    requires
        scalable(stacks@, times),
    ensures
        r@ == scaled(stacks@, times),
{
    let mut r: Vec<ItemStack> = Vec::new();
    let n = stacks.len();
    for i in 0..n
        invariant
            n == stacks@.len(),
            scalable(stacks@, times),
            r@ == scaled(stacks@, times).take(i as int),
    {
        let s = stacks[i];
        assert(i32::MIN <= stacks@[i as int].quantity * times <= i32::MAX);
        r.push(ItemStack { quantity: s.quantity * times, ..s });
        assert(r@ =~= scaled(stacks@, times).take(i + 1));
    }
    assert(r@ =~= scaled(stacks@, times));
    r
}

/// Adds `items` after what `owner` is already owed.
fn owe_items(owed: &mut HashMap<u64, Vec<ItemStack>>, owner: u64, items: &Vec<ItemStack>)
    ensures
        lists(final(owed)@) == owe(lists(old(owed)@), owner, items@),
{
    let mut list: Vec<ItemStack> = match owed.remove(&owner) {
        Some(v) => v,
        None => Vec::new(),
    };
    let ghost start = list@;
    assert(start == (if lists(old(owed)@).contains_key(owner) { lists(old(owed)@)[owner] } else { Seq::<ItemStack>::empty() }));
    let n = items.len();
    for i in 0..n
        invariant
            n == items@.len(),
            list@ == start + items@.take(i as int),
    {
        list.push(items[i]);
        assert(list@ =~= start + items@.take(i + 1));
    }
    assert(list@ =~= start + items@);
    owed.insert(owner, list);
    assert(lists(owed@) =~= owe(lists(old(owed)@), owner, items@));
}

/// Groups by owner what the crafts running in a destroyed crafting building
/// give back: for each passive craft, its outputs when complete and its
/// inputs otherwise; then for each active craft, the outputs of its
/// completed crafts and the inputs of its refunded ones. Item lists among
/// the outputs are resolved afterwards, stack by stack, where they stand.
pub fn crafting_lost_items(crafts: &Vec<LostCraft>, actions: &Vec<LostAction>) -> (r: HashMap<u64, Vec<ItemStack>>)
    requires
        forall|i: int| 0 <= i < actions@.len() ==> scalable((#[trigger] actions@[i]).outputs@, actions@[i].completed_crafts)
            && scalable(actions@[i].inputs@, actions@[i].refunded_crafts),
    ensures
        lists(r@) == crafting_lost(crafts@, actions@),
{
    let mut owed: HashMap<u64, Vec<ItemStack>> = HashMap::new();
    assert(lists(owed@) =~= owed_by_crafts(crafts@, 0));
    let n = crafts.len();
    for i in 0..n
        invariant
            n == crafts@.len(),
            lists(owed@) == owed_by_crafts(crafts@, i as int),
    {
        let craft = &crafts[i];
        match craft.status {
            PassiveCraftStatus::Complete => owe_items(&mut owed, craft.owner_entity_id, &craft.outputs),
            _ => owe_items(&mut owed, craft.owner_entity_id, &craft.inputs),
        }
    }
    let ghost after_crafts = lists(owed@);
    let m = actions.len();
    for j in 0..m
        invariant
            m == actions@.len(),
            forall|i: int| 0 <= i < actions@.len() ==> scalable((#[trigger] actions@[i]).outputs@, actions@[i].completed_crafts)
                && scalable(actions@[i].inputs@, actions@[i].refunded_crafts),
            lists(owed@) == owed_by_actions(after_crafts, actions@, j as int),
    {
        let action = &actions[j];
        assert(scalable(actions@[j as int].outputs@, actions@[j as int].completed_crafts));
        let outputs = scale_stacks(&action.outputs, action.completed_crafts);
        let inputs = scale_stacks(&action.inputs, action.refunded_crafts);
        let ghost before = lists(owed@);
        owe_items(&mut owed, action.owner_entity_id, &outputs);
        owe_items(&mut owed, action.owner_entity_id, &inputs);
        proof {
            let owner = action.owner_entity_id;
            let mid = owe(before, owner, outputs@);
            assert(mid.contains_key(owner));
            assert(owe(mid, owner, inputs@) =~= owe(before, owner, outputs@ + inputs@)) by {
                let old_list = if before.contains_key(owner) { before[owner] } else { Seq::<ItemStack>::empty() };
                assert(old_list + outputs@ + inputs@ =~= old_list + (outputs@ + inputs@));
            }
        }
    }
    owed
}

proof fn lemma_crafts_domain(crafts: Seq<LostCraft>, n: int, o: u64)
    requires
        0 <= n <= crafts.len(),
    ensures
        owed_by_crafts(crafts, n).contains_key(o) <==> exists|j: int| 0 <= j < n && (#[trigger] crafts[j]).owner_entity_id == o,
    decreases n,
{
    if n > 0 {
        lemma_crafts_domain(crafts, n - 1, o);
        if crafts[n - 1].owner_entity_id == o {
            assert(crafts[n - 1].owner_entity_id == o);
        }
    }
}

proof fn lemma_actions_domain(owed: Map<u64, Seq<ItemStack>>, actions: Seq<LostAction>, n: int, o: u64)
    requires
        0 <= n <= actions.len(),
    ensures
        owed_by_actions(owed, actions, n).contains_key(o) <==> owed.contains_key(o) || exists|j: int|
            0 <= j < n && (#[trigger] actions[j]).owner_entity_id == o,
    decreases n,
{
    if n > 0 {
        lemma_actions_domain(owed, actions, n - 1, o);
        if actions[n - 1].owner_entity_id == o {
            assert(actions[n - 1].owner_entity_id == o);
        }
    }
}

proof fn lemma_crafts_single(crafts: Seq<LostCraft>, n: int, m: int)
    requires
        0 <= m < n <= crafts.len(),
        forall|j: int| 0 <= j < n && j != m ==> (#[trigger] crafts[j]).owner_entity_id != crafts[m].owner_entity_id,
    ensures
        owed_by_crafts(crafts, n)[crafts[m].owner_entity_id] == craft_lost(crafts[m]),
    decreases n,
{
    let o = crafts[m].owner_entity_id;
    if n - 1 > m {
        lemma_crafts_single(crafts, n - 1, m);
        assert(crafts[n - 1].owner_entity_id != o);
    } else {
        lemma_crafts_domain(crafts, n - 1, o);
        assert(!owed_by_crafts(crafts, n - 1).contains_key(o));
        assert(Seq::<ItemStack>::empty() + craft_lost(crafts[m]) =~= craft_lost(crafts[m]));
    }
}

proof fn lemma_actions_keep(owed: Map<u64, Seq<ItemStack>>, actions: Seq<LostAction>, n: int, o: u64)
    requires
        0 <= n <= actions.len(),
        forall|j: int| 0 <= j < n ==> (#[trigger] actions[j]).owner_entity_id != o,
    ensures
        owed_by_actions(owed, actions, n).contains_key(o) == owed.contains_key(o),
        owed_by_actions(owed, actions, n)[o] == owed[o],
    decreases n,
{
    if n > 0 {
        lemma_actions_keep(owed, actions, n - 1, o);
    }
}

/// Lost items go to the owners of the crafts and only to them: an owner is
/// owed something (a list, maybe empty) exactly when some passive or
/// active craft in the building is theirs. An owner with a single passive
/// craft and no active one gets back its outputs when it was complete and
/// its inputs otherwise.
pub proof fn law_lost_items_go_to_the_craft_owners(crafts: Seq<LostCraft>, actions: Seq<LostAction>, o: u64)
    ensures
        crafting_lost(crafts, actions).contains_key(o) <==> (exists|j: int|
            0 <= j < crafts.len() && (#[trigger] crafts[j]).owner_entity_id == o) || (exists|j: int|
            0 <= j < actions.len() && (#[trigger] actions[j]).owner_entity_id == o),
        forall|m: int|
            0 <= m < crafts.len() && (#[trigger] crafts[m]).owner_entity_id == o && (forall|j: int|
                0 <= j < crafts.len() && j != m ==> (#[trigger] crafts[j]).owner_entity_id != o) && (forall|j: int|
                0 <= j < actions.len() ==> (#[trigger] actions[j]).owner_entity_id != o) ==> crafting_lost(crafts, actions)[o]
                == if crafts[m].status == PassiveCraftStatus::Complete {
                crafts[m].outputs@
            } else {
                crafts[m].inputs@
            },
{
    let start = owed_by_crafts(crafts, crafts.len() as int);
    lemma_crafts_domain(crafts, crafts.len() as int, o);
    lemma_actions_domain(start, actions, actions.len() as int, o);
    assert forall|m: int|
        0 <= m < crafts.len() && (#[trigger] crafts[m]).owner_entity_id == o && (forall|j: int|
            0 <= j < crafts.len() && j != m ==> (#[trigger] crafts[j]).owner_entity_id != o) && (forall|j: int|
            0 <= j < actions.len() ==> (#[trigger] actions[j]).owner_entity_id != o) implies crafting_lost(crafts, actions)[o]
        == if crafts[m].status == PassiveCraftStatus::Complete {
        crafts[m].outputs@
    } else {
        crafts[m].inputs@
    } by {
        lemma_crafts_single(crafts, crafts.len() as int, m);
        lemma_actions_keep(start, actions, actions.len() as int, o);
    }
}

/// Whether a market being destroyed is the last one of its claim, given
/// how many markets stand on the claim (itself included).
pub fn is_last_market(markets_on_claim: usize) -> (r: bool)
    ensures
        r == (markets_on_claim == 1),
{
    markets_on_claim == 1
}

} // verus!
