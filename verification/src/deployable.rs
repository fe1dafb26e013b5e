//! Deployables (carts, boats...) and the seats they have free.
use vstd::prelude::*;

verus! {

/// The seats below `capacity` that nobody occupies, in order.
pub open spec fn free_among(capacity: int, used_slots: Seq<i32>, n: int) -> Seq<i32>
    decreases n,
{
    if n <= 0 {
        Seq::empty()
    } else if used_slots.contains((n - 1) as i32) {
        free_among(capacity, used_slots, n - 1)
    } else {
        free_among(capacity, used_slots, n - 1).push((n - 1) as i32)
    }
}

/// The free seats of a deployable of `capacity` seats, given the seats
/// its passengers occupy.
pub fn free_slots(capacity: i32, used_slots: &Vec<i32>) -> (r: Vec<i32>)
    ensures
        r@ == free_among(capacity as int, used_slots@, if capacity > 0 { capacity as int } else { 0 }),
{
    let mut slots: Vec<i32> = Vec::new();
    let mut i: i32 = 0;
    while i < capacity
        invariant
            0 <= i,
            capacity > 0 ==> i <= capacity,
            capacity <= 0 ==> i == 0,
            slots@ == free_among(capacity as int, used_slots@, i as int),
        decreases capacity - i,
    {
        let mut used = false;
        let n = used_slots.len();
        let mut k: usize = 0;
        while k < n
            invariant
                k <= n,
                n == used_slots@.len(),
                used == exists|j: int| 0 <= j < k && used_slots@[j] == i,
            decreases n - k,
        {
            if used_slots[k] == i {
                used = true;
            }
            k = k + 1;
        }
        proof {
            if used {
                let j = choose|j: int| 0 <= j < n && used_slots@[j] == i;
                assert(used_slots@.contains(i));
            } else {
                assert(!used_slots@.contains(i));
            }
        }
        if !used {
            slots.push(i);
        }
        i = i + 1;
    }
    slots
}

/// The seats listed free are exactly the seats below the capacity that
/// no passenger occupies, in increasing order.
pub proof fn law_free_seats_are_the_unoccupied_ones(capacity: int, used_slots: Seq<i32>, n: int)
    requires
        0 <= n <= i32::MAX + 1,
    ensures
        forall|k: int| 0 <= k < free_among(capacity, used_slots, n).len() ==> {
            let seat = #[trigger] free_among(capacity, used_slots, n)[k];
            &&& 0 <= seat < n
            &&& !used_slots.contains(seat)
        },
        forall|k: int, l: int| 0 <= k < l < free_among(capacity, used_slots, n).len() ==> #[trigger] free_among(
            capacity,
            used_slots,
            n,
        )[k] < #[trigger] free_among(capacity, used_slots, n)[l],
        forall|seat: i32| 0 <= seat < n && !used_slots.contains(seat) ==> #[trigger] free_among(capacity, used_slots, n).contains(seat),
    decreases n,
{
    if n > 0 {
        law_free_seats_are_the_unoccupied_ones(capacity, used_slots, n - 1);
        let prev = free_among(capacity, used_slots, n - 1);
        let out = free_among(capacity, used_slots, n);
        if !used_slots.contains((n - 1) as i32) {
            assert(out == prev.push((n - 1) as i32));
            assert forall|seat: i32| 0 <= seat < n && !used_slots.contains(seat) implies #[trigger] out.contains(seat) by {
                if seat < n - 1 {
                    assert(prev.contains(seat));
                    let k = choose|k: int| 0 <= k < prev.len() && prev[k] == seat;
                    assert(out[k] == seat);
                } else {
                    assert(out[prev.len() as int] == seat);
                }
            }
        }
    }
}

} // verus!
