//! Duels between two players: who is out of range since when, who lost,
//! and who is dueling whom.
use vstd::prelude::*;

verus! {

/// A duel: its two players (initiator first), how long each has been out
/// of range (since a time in microseconds, if they are), and its victor.
#[derive(Debug)]
pub struct DuelState {
    pub entity_id: u64,
    pub initiator_entity_id: u64,
    pub acceptor_entity_id: u64,
    pub player_entity_ids: Vec<u64>,
    pub out_of_range_timestamps: Vec<Option<i64>>,
    pub victor: Option<u64>,
}

impl DuelState {
    /// A duel just accepted: nobody out of range, no victor yet.
    pub fn initiate(entity_id: u64, initiator_entity_id: u64, acceptor_entity_id: u64) -> (r: DuelState)
        ensures
            r.entity_id == entity_id,
            r.initiator_entity_id == initiator_entity_id,
            r.acceptor_entity_id == acceptor_entity_id,
            r.player_entity_ids@ == seq![initiator_entity_id, acceptor_entity_id],
            r.out_of_range_timestamps@ == seq![None::<i64>, None::<i64>],
            r.victor is None,
    {
        DuelState {
            entity_id,
            initiator_entity_id,
            acceptor_entity_id,
            player_entity_ids: vec![initiator_entity_id, acceptor_entity_id],
            out_of_range_timestamps: vec![None, None],
            victor: None,
        }
    }

    /// Records whether a player is out of range: the time they left is
    /// kept until they come back. True when that changed anything.
    pub fn update_out_of_range_timestamp(&mut self, player_index: usize, out_of_range: bool, now_micros: i64) -> (r: bool)
        requires
            player_index < old(self).out_of_range_timestamps@.len(),
        ensures
            final(self).entity_id == old(self).entity_id,
            final(self).initiator_entity_id == old(self).initiator_entity_id,
            final(self).acceptor_entity_id == old(self).acceptor_entity_id,
            final(self).player_entity_ids@ == old(self).player_entity_ids@,
            final(self).victor == old(self).victor,
            ({
                let before = old(self).out_of_range_timestamps@[player_index as int];
                if out_of_range && before is None {
                    r && final(self).out_of_range_timestamps@ == old(self).out_of_range_timestamps@.update(
                        player_index as int,
                        Some(now_micros),
                    )
                } else if !out_of_range && before is Some {
                    r && final(self).out_of_range_timestamps@ == old(self).out_of_range_timestamps@.update(
                        player_index as int,
                        None,
                    )
                } else {
                    !r && final(self).out_of_range_timestamps@ == old(self).out_of_range_timestamps@
                }
            }),
    {
        if out_of_range {
            if self.out_of_range_timestamps[player_index].is_none() {
                self.out_of_range_timestamps.set(player_index, Some(now_micros));
                return true;
            }
        } else {
            if self.out_of_range_timestamps[player_index].is_some() {
                self.out_of_range_timestamps.set(player_index, None);
                return true;
            }
        }
        false
    }

    /// Whether a player has been out of range for at least `timeout_millis`.
    pub fn timed_out(&self, player_index: usize, timeout_millis: i32, now_micros: i64) -> (r: bool)
        requires
            player_index < self.out_of_range_timestamps@.len(),
            self.out_of_range_timestamps@[player_index as int] matches Some(t) ==> t <= now_micros && now_micros - t
                <= i64::MAX,
        ensures
            r == match self.out_of_range_timestamps@[player_index as int] {
                Some(t) => (((now_micros - t) / 1000) as i32) >= timeout_millis,
                None => false,
            },
    {
        match self.out_of_range_timestamps[player_index] {
            Some(t) => {
                let elapsed_millis: i64 = (now_micros - t) / 1000;
                (#[verifier::truncate] (elapsed_millis as i32)) >= timeout_millis
            },
            None => false,
        }
    }

    /// Ends the duel with the given player losing: the other one wins.
    pub fn set_loser(&mut self, player_index: usize)
        requires
            player_index <= 1,
            old(self).player_entity_ids@.len() == 2,
        ensures
            final(self).entity_id == old(self).entity_id,
            final(self).initiator_entity_id == old(self).initiator_entity_id,
            final(self).acceptor_entity_id == old(self).acceptor_entity_id,
            final(self).victor == Some(old(self).player_entity_ids@[1 - player_index]),
            final(self).player_entity_ids@ == old(self).player_entity_ids@,
            final(self).out_of_range_timestamps@ == old(self).out_of_range_timestamps@,
    {
        self.victor = Some(self.player_entity_ids[1 - player_index]);
    }

    /// Whether the attacker's duel (if any) is against the defender.
    pub fn are_players_dueling(attacker_duel: Option<&DuelState>, defender_entity_id: u64) -> (r: bool)
        ensures
            r == match attacker_duel {
                Some(d) => d.player_entity_ids@.contains(defender_entity_id),
                None => false,
            },
    {
        match attacker_duel {
            Some(duel) => {
                let n = duel.player_entity_ids.len();
                let mut i: usize = 0;
                while i < n
                    invariant
                        i <= n,
                        n == duel.player_entity_ids@.len(),
                        attacker_duel == Some(duel),
                        forall|k: int| 0 <= k < i ==> duel.player_entity_ids@[k] != defender_entity_id,
                    decreases n - i,
                {
                    if duel.player_entity_ids[i] == defender_entity_id {
                        assert(duel.player_entity_ids@[i as int] == defender_entity_id);
                        return true;
                    }
                    i = i + 1;
                }
                false
            },
            None => false,
        }
    }
}

} // verus!
