//! Traveling traders: which ruins they remember and which trade orders
//! they always bring.
use vstd::prelude::*;

verus! {

/// How many ruins a trader remembers.
pub const REMEMBERED_BUILDINGS: usize = 3;

/// The ruins remembered after leaving `current`: it is added (unless it is
/// no ruin, entity 0), and only the last three are kept.
pub open spec fn remembered(previous: Seq<u64>, current: u64) -> Seq<u64> {
    let all = if current != 0 { previous.push(current) } else { previous };
    if all.len() > REMEMBERED_BUILDINGS {
        all.subrange(all.len() - REMEMBERED_BUILDINGS, all.len() as int)
    } else {
        all
    }
}

/// Remembers the ruin a trader leaves.
pub fn remember_building(previous_buildings: &mut Vec<u64>, building_entity_id: u64)
    requires
        old(previous_buildings)@.len() < usize::MAX,
    ensures
        final(previous_buildings)@ == remembered(old(previous_buildings)@, building_entity_id),
{
    let ghost all = if building_entity_id != 0 {
        previous_buildings@.push(building_entity_id)
    } else {
        previous_buildings@
    };
    if building_entity_id != 0 {
        previous_buildings.push(building_entity_id);
    }
    while previous_buildings.len() > REMEMBERED_BUILDINGS
        invariant
            all.len() >= previous_buildings@.len(),
            previous_buildings@ == all.subrange(all.len() - previous_buildings@.len(), all.len() as int),
            previous_buildings@.len() >= REMEMBERED_BUILDINGS || previous_buildings@ == all,
        decreases previous_buildings@.len(),
    {
        previous_buildings.remove(0);
    }
    assert(previous_buildings@ =~= remembered(old(previous_buildings)@, building_entity_id));
}

/// A trade order a trader may bring.
#[derive(Clone, Copy, Debug, PartialEq, Eq, Structural)]
pub struct TravelerTradeOrder {
    pub id: i32,
    pub traveler: i32,
    pub always_offered: bool,
}

/// The ids of the first `n` orders of `traveler` that are always offered
/// (or, with `always` false, that may be drawn), in order.
pub open spec fn orders_of(orders: Seq<TravelerTradeOrder>, traveler: i32, always: bool, n: int) -> Seq<i32>
    decreases n,
{
    if n <= 0 {
        Seq::empty()
    } else if orders[n - 1].traveler == traveler && orders[n - 1].always_offered == always {
        orders_of(orders, traveler, always, n - 1).push(orders[n - 1].id)
    } else {
        orders_of(orders, traveler, always, n - 1)
    }
}

/// Splits a trader's orders: those always offered, and those a few of
/// which are drawn at each ruin.
pub fn split_trade_orders(orders: &Vec<TravelerTradeOrder>, traveler: i32) -> (r: (Vec<i32>, Vec<i32>))
    ensures
        r.0@ == orders_of(orders@, traveler, true, orders@.len() as int),
        r.1@ == orders_of(orders@, traveler, false, orders@.len() as int),
{
    let mut always: Vec<i32> = Vec::new();
    let mut drawn: Vec<i32> = Vec::new();
    let n = orders.len();
    let mut i: usize = 0;
    while i < n
        invariant
            i <= n,
            n == orders@.len(),
            always@ == orders_of(orders@, traveler, true, i as int),
            drawn@ == orders_of(orders@, traveler, false, i as int),
        decreases n - i,
    {
        let o = orders[i];
        if o.traveler == traveler {
            if o.always_offered {
                always.push(o.id);
            } else {
                drawn.push(o.id);
            }
        }
        i = i + 1;
    }
    (always, drawn)
}

/// A trader remembers at most three ruins, the most recent ones in the
/// order visited, ending with the ruin just left (when it is one).
pub proof fn law_trader_remembers_the_last_three(previous: Seq<u64>, current: u64)
    ensures
        ({
            let all = if current != 0 { previous.push(current) } else { previous };
            let r = remembered(previous, current);
            &&& r.len() == if all.len() > 3 { 3 } else { all.len() }
            &&& forall|i: int| 0 <= i < r.len() ==> #[trigger] r[i] == all[all.len() - r.len() + i]
            &&& current != 0 ==> r.len() > 0 && r.last() == current
        }),
{
}

/// Every order a trader is said to bring, always or drawn, is one of that
/// trader's orders, offered that way.
pub proof fn law_split_orders_belong_to_the_trader(orders: Seq<TravelerTradeOrder>, traveler: i32, always: bool, n: int)
    requires
        0 <= n <= orders.len(),
    ensures
        forall|k: int|
            #![trigger orders_of(orders, traveler, always, n)[k]]
            0 <= k < orders_of(orders, traveler, always, n).len() ==> exists|j: int|
                0 <= j < n && (#[trigger] orders[j]).id == orders_of(orders, traveler, always, n)[k] && orders[j].traveler == traveler
                    && orders[j].always_offered == always,
    decreases n,
{
    if n > 0 {
        law_split_orders_belong_to_the_trader(orders, traveler, always, n - 1);
        let prev = orders_of(orders, traveler, always, n - 1);
        let out = orders_of(orders, traveler, always, n);
        assert forall|k: int| #![trigger out[k]] 0 <= k < out.len() implies exists|j: int|
            0 <= j < n && (#[trigger] orders[j]).id == out[k] && orders[j].traveler == traveler && orders[j].always_offered == always by {
            if k < prev.len() {
                assert(out[k] == prev[k]);
                assert(prev[k] == orders_of(orders, traveler, always, n - 1)[k]);
                let j = choose|j: int|
                    0 <= j < n - 1 && (#[trigger] orders[j]).id == prev[k] && orders[j].traveler == traveler
                        && orders[j].always_offered == always;
                assert(orders[j].id == out[k]);
            } else {
                assert(out[k] == orders[n - 1].id);
            }
        }
    }
}

} // verus!
