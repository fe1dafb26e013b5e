//! Enemies that grow stronger with the number of players fighting them.
use vstd::prelude::*;

verus! {

/// One level of an enemy's scaling: it applies from that many players on.
#[derive(Clone, Copy, Debug, PartialEq, Eq, Structural)]
pub struct EnemyScalingDesc {
    pub id: i32,
    pub required_players_count: i32,
}

/// Among the first `n` levels, the first of the highest requirement that
/// `threat_count` players meet.
pub open spec fn highest_met(levels: Seq<EnemyScalingDesc>, threat_count: i32, n: int) -> Option<EnemyScalingDesc>
    decreases n,
{
    if n <= 0 {
        None
    } else {
        let best = highest_met(levels, threat_count, n - 1);
        let d = levels[n - 1];
        if threat_count >= d.required_players_count && (best is None || best->0.required_players_count
            < d.required_players_count) {
            Some(d)
        } else {
            best
        }
    }
}

/// The scaling level an enemy fought by `threat_count` players takes:
/// the highest it meets (the first of equals), or none.
pub fn highest_scaling(scaling_data: &Vec<EnemyScalingDesc>, threat_count: i32) -> (r: Option<EnemyScalingDesc>)
    ensures
        r == highest_met(scaling_data@, threat_count, scaling_data@.len() as int),
{
    let mut highest: Option<EnemyScalingDesc> = None;
    let n = scaling_data.len();
    let mut i: usize = 0;
    while i < n
        invariant
            i <= n,
            n == scaling_data@.len(),
            highest == highest_met(scaling_data@, threat_count, i as int),
        decreases n - i,
    {
        let data = scaling_data[i];
        if threat_count >= data.required_players_count {
            let better = match highest {
                None => true,
                Some(h) => h.required_players_count < data.required_players_count,
            };
            if better {
                highest = Some(data);
            }
        }
        i = i + 1;
    }
    highest
}

/// The level chosen is met by the players and no level they meet asks more.
pub proof fn law_scaling_is_the_highest_met(levels: Seq<EnemyScalingDesc>, threat_count: i32, n: int)
    requires
        0 <= n <= levels.len(),
    ensures
        highest_met(levels, threat_count, n) matches Some(d) ==> threat_count >= d.required_players_count,
        forall|k: int| 0 <= k < n && threat_count >= (#[trigger] levels[k]).required_players_count ==> (highest_met(
            levels,
            threat_count,
            n,
        ) matches Some(d) && d.required_players_count >= levels[k].required_players_count),
    decreases n,
{
    if n > 0 {
        law_scaling_is_the_highest_met(levels, threat_count, n - 1);
    }
}

} // verus!
