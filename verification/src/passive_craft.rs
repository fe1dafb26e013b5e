//! Passive crafts queued in a building, processed oldest first.
use vstd::prelude::*;

verus! {

/// Where a passive craft stands.
#[derive(Clone, Copy, Debug, PartialEq, Eq, Structural)]
pub enum PassiveCraftStatus {
    Queued,
    Processing,
    Complete,
}

/// A passive craft of a building.
#[derive(Clone, Copy, Debug, PartialEq, Eq, Structural)]
pub struct PassiveCraftState {
    pub entity_id: u64,
    pub recipe_id: i32,
    pub status: PassiveCraftStatus,
    /// When it was queued (or started), in microseconds.
    pub timestamp: i64,
    pub slot: Option<u32>,
}

/// Among the first `n` crafts, the position of the first queued one with
/// the earliest timestamp, or -1.
pub open spec fn oldest_queued_among(crafts: Seq<PassiveCraftState>, n: int) -> int
    decreases n,
{
    if n <= 0 {
        -1
    } else {
        let best = oldest_queued_among(crafts, n - 1);
        let c = crafts[n - 1];
        if c.status == PassiveCraftStatus::Queued && (best == -1 || c.timestamp < crafts[best].timestamp) {
            n - 1
        } else {
            best
        }
    }
}

/// The craft picked is the oldest queued one, the first of them on a tie:
/// none is picked only when nothing is queued; the one picked is queued, no
/// queued craft is older, and every queued craft before it is younger.
pub proof fn law_oldest_queued_is_picked(crafts: Seq<PassiveCraftState>, n: int)
    requires
        0 <= n <= crafts.len(),
    ensures
        ({
            let k = oldest_queued_among(crafts, n);
            &&& (k == -1 <==> forall|j: int| 0 <= j < n ==> (#[trigger] crafts[j]).status != PassiveCraftStatus::Queued)
            &&& k != -1 ==> {
                &&& 0 <= k < n
                &&& crafts[k].status == PassiveCraftStatus::Queued
                &&& forall|j: int| 0 <= j < n && (#[trigger] crafts[j]).status == PassiveCraftStatus::Queued ==> crafts[k].timestamp
                    <= crafts[j].timestamp
                &&& forall|j: int| 0 <= j < k && (#[trigger] crafts[j]).status == PassiveCraftStatus::Queued ==> crafts[k].timestamp
                    < crafts[j].timestamp
            }
        }),
    decreases n,
{
    if n > 0 {
        law_oldest_queued_is_picked(crafts, n - 1);
    }
}

/// Starts the oldest queued craft of a building in `slot` at `timestamp`
/// (its duration is then scheduled by the caller); returns its position,
/// or `None` when nothing is queued.
pub fn process_oldest_queued(crafts: &mut Vec<PassiveCraftState>, slot: u32, timestamp: i64) -> (r: Option<usize>)
    ensures
        ({
            let k = oldest_queued_among(old(crafts)@, old(crafts)@.len() as int);
            if k == -1 {
                r is None && final(crafts)@ == old(crafts)@
            } else {
                &&& r == Some(k as usize)
                &&& final(crafts)@ == old(crafts)@.update(
                    k,
                    PassiveCraftState {
                        timestamp,
                        slot: Some(slot),
                        status: PassiveCraftStatus::Processing,
                        ..old(crafts)@[k]
                    },
                )
            }
        }),
{
    let n = crafts.len();
    let mut best: Option<usize> = None;
    let mut i: usize = 0;
    while i < n
        invariant
            i <= n,
            n == crafts@.len(),
            match best {
                Some(b) => b as int == oldest_queued_among(crafts@, i as int) && b < i,
                None => oldest_queued_among(crafts@, i as int) == -1,
            },
        decreases n - i,
    {
        let c = crafts[i];
        if c.status == PassiveCraftStatus::Queued {
            let older = match best {
                None => true,
                Some(b) => c.timestamp < crafts[b].timestamp,
            };
            if older {
                best = Some(i);
            }
        }
        i = i + 1;
    }
    match best {
        Some(b) => {
            let c = crafts[b];
            crafts.set(b, PassiveCraftState { timestamp, slot: Some(slot), status: PassiveCraftStatus::Processing, ..c });
            Some(b)
        },
        None => None,
    }
}

} // verus!
