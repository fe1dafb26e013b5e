//! Achievements: which ones a player may start tracking, and whether a
//! tracked one is earned.
use vstd::prelude::*;

verus! {

/// How far a player knows something.
#[derive(Clone, Copy, Debug, PartialEq, Eq, Structural)]
pub enum KnowledgeState {
    Unknown,
    Discovered,
    Acquired,
}

/// What a player knows of one thing (a resource, a craft, an achievement...).
#[derive(Clone, Copy, Debug, PartialEq, Eq, Structural)]
pub struct KnowledgeEntry {
    pub id: i32,
    pub state: KnowledgeState,
}

/// The requirements of an achievement that its evaluation reads (the share
/// of the world explored is compared by the caller).
#[derive(Debug)]
pub struct AchievementDesc {
    pub id: i32,
    pub requisites: Vec<i32>,
    pub skill_id: i32,
    pub skill_level: i32,
    pub resource_disc: Vec<i32>,
    pub crafting_disc: Vec<i32>,
    pub cargo_disc: Vec<i32>,
    pub item_disc: Vec<i32>,
    pub chunks_discovered: i32,
}

/// The state of the first entry about `id` from position `i` on, if any.
pub open spec fn first_state(known: Seq<KnowledgeEntry>, id: i32, i: int) -> Option<KnowledgeState>
    decreases known.len() - i,
{
    if i < 0 || i >= known.len() {
        None
    } else if known[i].id == id {
        Some(known[i].state)
    } else {
        first_state(known, id, i + 1)
    }
}

/// Whether the first entry about `id` says it is acquired.
pub open spec fn first_acquired(known: Seq<KnowledgeEntry>, id: i32) -> bool {
    first_state(known, id, 0) == Some(KnowledgeState::Acquired)
}

/// Whether every id of `ids` is acquired (by its first entry).
pub open spec fn all_first_acquired(known: Seq<KnowledgeEntry>, ids: Seq<i32>) -> bool {
    forall|i: int| 0 <= i < ids.len() ==> first_acquired(known, #[trigger] ids[i])
}

/// Whether some entry says `id` is acquired.
pub open spec fn some_acquired(known: Seq<KnowledgeEntry>, id: i32) -> bool {
    exists|i: int| 0 <= i < known.len() && (#[trigger] known[i]).id == id && known[i].state == KnowledgeState::Acquired
}

/// Whether some entry is about `id`.
pub open spec fn is_known(known: Seq<KnowledgeEntry>, id: i32) -> bool {
    exists|i: int| 0 <= i < known.len() && (#[trigger] known[i]).id == id
}

/// Whether an achievement may start being tracked: not known yet, and all
/// its requisites acquired.
pub open spec fn eligible(a: AchievementDesc, known: Seq<KnowledgeEntry>) -> bool {
    &&& !is_known(known, a.id)
    &&& forall|i: int| 0 <= i < a.requisites@.len() ==> some_acquired(known, #[trigger] a.requisites@[i])
}

/// Whether the first entry about `id` says it is acquired.
fn first_is_acquired(known: &Vec<KnowledgeEntry>, id: i32) -> (r: bool)
    ensures
        r == first_acquired(known@, id),
{
    let n = known.len();
    let mut i: usize = 0;
    while i < n
        invariant
            i <= n,
            n == known@.len(),
            first_state(known@, id, 0) == first_state(known@, id, i as int),
        decreases n - i,
    {
        if known[i].id == id {
            return known[i].state == KnowledgeState::Acquired;
        }
        i = i + 1;
    }
    false
}

/// Whether every id of `ids` is acquired (by its first entry).
fn all_are_acquired(known: &Vec<KnowledgeEntry>, ids: &Vec<i32>) -> (r: bool)
    ensures
        r == all_first_acquired(known@, ids@),
{
    let n = ids.len();
    let mut i: usize = 0;
    while i < n
        invariant
            i <= n,
            n == ids@.len(),
            forall|k: int| 0 <= k < i ==> first_acquired(known@, #[trigger] ids@[k]),
        decreases n - i,
    {
        if !first_is_acquired(known, ids[i]) {
            return false;
        }
        i = i + 1;
    }
    true
}

/// Whether some entry says `id` is acquired.
fn any_acquired(known: &Vec<KnowledgeEntry>, id: i32) -> (r: bool)
    ensures
        r == some_acquired(known@, id),
{
    let n = known.len();
    let mut i: usize = 0;
    while i < n
        invariant
            i <= n,
            n == known@.len(),
            forall|k: int| 0 <= k < i ==> !((#[trigger] known@[k]).id == id && known@[k].state == KnowledgeState::Acquired),
        decreases n - i,
    {
        if known[i].id == id && known[i].state == KnowledgeState::Acquired {
            return true;
        }
        i = i + 1;
    }
    false
}

/// Whether some entry is about `id`.
fn any_known(known: &Vec<KnowledgeEntry>, id: i32) -> (r: bool)
    ensures
        r == is_known(known@, id),
{
    let n = known.len();
    let mut i: usize = 0;
    while i < n
        invariant
            i <= n,
            n == known@.len(),
            forall|k: int| 0 <= k < i ==> (#[trigger] known@[k]).id != id,
        decreases n - i,
    {
        if known[i].id == id {
            return true;
        }
        i = i + 1;
    }
    false
}

impl AchievementDesc {
    /// Whether the achievement is earned: every requisite achievement
    /// acquired, the skill (if any) at its level (`skill_level` is the
    /// player's level in `skill_id`), every resource, craft, cargo and item
    /// to discover acquired, enough chunks explored, and the share of the
    /// world explored reached (`explored_share_reached`).
    pub fn evaluate_achievement(
        &self,
        skill_level: i32,
        known_resources: &Vec<KnowledgeEntry>,
        known_crafts: &Vec<KnowledgeEntry>,
        known_cargos: &Vec<KnowledgeEntry>,
        known_items: &Vec<KnowledgeEntry>,
        known_achievements: &Vec<KnowledgeEntry>,
        known_chunks: i32,
        explored_share_reached: bool,
    ) -> (r: bool)
        ensures
            r == (all_first_acquired(known_achievements@, self.requisites@) && (self.skill_id != 0 ==> skill_level
                >= self.skill_level) && all_first_acquired(known_resources@, self.resource_disc@) && all_first_acquired(
                known_crafts@,
                self.crafting_disc@,
            ) && all_first_acquired(known_cargos@, self.cargo_disc@) && all_first_acquired(known_items@, self.item_disc@)
                && self.chunks_discovered <= known_chunks && explored_share_reached),
    {
        if !all_are_acquired(known_achievements, &self.requisites) {
            return false;
        }
        if self.skill_id != 0 {
            if skill_level < self.skill_level {
                return false;
            }
        }
        if !all_are_acquired(known_resources, &self.resource_disc) {
            return false;
        }
        if !all_are_acquired(known_crafts, &self.crafting_disc) {
            return false;
        }
        if !all_are_acquired(known_cargos, &self.cargo_disc) {
            return false;
        }
        if !all_are_acquired(known_items, &self.item_disc) {
            return false;
        }
        if self.chunks_discovered > known_chunks {
            return false;
        }
        explored_share_reached
    }

    /// Whether the achievement may start being tracked.
    pub fn is_eligible(&self, known_achievements: &Vec<KnowledgeEntry>) -> (r: bool)
        ensures
            r == eligible(*self, known_achievements@),
            r == unknown_with_requisites_acquired(*self, known_achievements@),
    {
        proof {
            law_eligible_needs_acquired_requisites(*self, known_achievements@);
        }
        if any_known(known_achievements, self.id) {
            return false;
        }
        let n = self.requisites.len();
        let mut i: usize = 0;
        while i < n
            invariant
                i <= n,
                n == self.requisites@.len(),
                forall|k: int| 0 <= k < i ==> some_acquired(known_achievements@, #[trigger] self.requisites@[k]),
                eligible(*self, known_achievements@) == unknown_with_requisites_acquired(*self, known_achievements@),
                !is_known(known_achievements@, self.id),
            decreases n - i,
        {
            if !any_acquired(known_achievements, self.requisites[i]) {
                return false;
            }
            i = i + 1;
        }
        true
    }

    /// The achievements a player may start tracking, in the order given.
    pub fn discover_eligible(achievements: &Vec<AchievementDesc>, known_achievements: &Vec<KnowledgeEntry>) -> (r: Vec<i32>)
        ensures
            r@ == eligible_ids(achievements@, known_achievements@, achievements@.len() as int),
            forall|k: int|
                #![trigger r@[k]]
                0 <= k < r@.len() ==> exists|j: int|
                    0 <= j < achievements@.len() && (#[trigger] achievements@[j]).id == r@[k]
                        && unknown_with_requisites_acquired(achievements@[j], known_achievements@),
    {
        proof {
            law_discovered_only_with_acquired_requisites(achievements@, known_achievements@, achievements@.len() as int);
        }
        let mut r: Vec<i32> = Vec::new();
        let n = achievements.len();
        let mut i: usize = 0;
        while i < n
            invariant
                i <= n,
                n == achievements@.len(),
                r@ == eligible_ids(achievements@, known_achievements@, i as int),
            decreases n - i,
        {
            if achievements[i].is_eligible(known_achievements) {
                r.push(achievements[i].id);
            }
            i = i + 1;
        }
        r
    }

    /// Whether acquiring achievement `achievement_id` first has to discover
    /// it: no entry about it is past `Unknown`.
    pub fn must_discover(known_achievements: &Vec<KnowledgeEntry>, achievement_id: i32) -> (r: bool)
        ensures
            r == !exists|i: int| 0 <= i < known_achievements@.len() && (#[trigger] known_achievements@[i]).id == achievement_id
                && known_achievements@[i].state != KnowledgeState::Unknown,
    {
        let n = known_achievements.len();
        for i in 0..n
            invariant
                n == known_achievements@.len(),
                forall|k: int| 0 <= k < i ==> !((#[trigger] known_achievements@[k]).id == achievement_id
                    && known_achievements@[k].state != KnowledgeState::Unknown),
        {
            if known_achievements[i].id == achievement_id && known_achievements[i].state != KnowledgeState::Unknown {
                return false;
            }
        }
        true
    }

    /// How many times acquiring achievement `achievement_id` evaluates it:
    /// once for every entry about it that is `Discovered` (after any
    /// discovery).
    pub fn evaluations_due(known_achievements: &Vec<KnowledgeEntry>, achievement_id: i32) -> (r: usize)
        ensures
            r == discovered_entries(known_achievements@, achievement_id, known_achievements@.len() as int),
    {
        let mut r: usize = 0;
        let n = known_achievements.len();
        for i in 0..n
            invariant
                n == known_achievements@.len(),
                r == discovered_entries(known_achievements@, achievement_id, i as int),
                r <= i,
        {
            if known_achievements[i].id == achievement_id && known_achievements[i].state == KnowledgeState::Discovered {
                r = r + 1;
            }
        }
        r
    }

    /// Re-evaluating every achievement is switched off: nothing happens.
    pub fn evaluate_all(_entity_id: u64) {
    }
}

/// How many of the first `n` entries are about `id` and `Discovered`.
pub open spec fn discovered_entries(known: Seq<KnowledgeEntry>, id: i32, n: int) -> int
    decreases n,
{
    if n <= 0 {
        0
    } else {
        discovered_entries(known, id, n - 1) + if known[n - 1].id == id && known[n - 1].state == KnowledgeState::Discovered {
            1int
        } else {
            0int
        }
    }
}

/// The ids of the eligible achievements among the first `n`, in order.
pub open spec fn eligible_ids(achievements: Seq<AchievementDesc>, known: Seq<KnowledgeEntry>, n: int) -> Seq<i32>
    decreases n,
{
    if n <= 0 {
        Seq::empty()
    } else if eligible(achievements[n - 1], known) {
        eligible_ids(achievements, known, n - 1).push(achievements[n - 1].id)
    } else {
        eligible_ids(achievements, known, n - 1)
    }
}

/// Some entry about `id` is acquired.
pub open spec fn entry_acquired(known: Seq<KnowledgeEntry>, id: i32) -> bool {
    exists|k: int| 0 <= k < known.len() && (#[trigger] known[k]).id == id && known[k].state == KnowledgeState::Acquired
}

/// An achievement may start being tracked only when the player has no
/// entry about it yet and every one of its requisites has an acquired
/// entry: a requisite merely discovered does not count.
pub proof fn law_eligible_needs_acquired_requisites(a: AchievementDesc, known: Seq<KnowledgeEntry>)
    ensures
        eligible(a, known) ==> {
            &&& forall|k: int| 0 <= k < known.len() ==> (#[trigger] known[k]).id != a.id
            &&& forall|i: int| 0 <= i < a.requisites@.len() ==> entry_acquired(known, #[trigger] a.requisites@[i])
        },
        (forall|k: int| 0 <= k < known.len() ==> (#[trigger] known[k]).id != a.id) && (forall|i: int|
            0 <= i < a.requisites@.len() ==> entry_acquired(known, #[trigger] a.requisites@[i])) ==> eligible(a, known),
{
    if eligible(a, known) {
        assert forall|k: int| 0 <= k < known.len() implies (#[trigger] known[k]).id != a.id by {
            if known[k].id == a.id {
                assert(is_known(known, a.id));
            }
        }
        assert forall|i: int| 0 <= i < a.requisites@.len() implies entry_acquired(known, #[trigger] a.requisites@[i]) by {
            assert(some_acquired(known, a.requisites@[i]));
            let k = choose|k: int| 0 <= k < known.len() && (#[trigger] known[k]).id == a.requisites@[i]
                && known[k].state == KnowledgeState::Acquired;
            assert(known[k].id == a.requisites@[i]);
        }
    }
    if (forall|k: int| 0 <= k < known.len() ==> (#[trigger] known[k]).id != a.id) && (forall|i: int|
        0 <= i < a.requisites@.len() ==> entry_acquired(known, #[trigger] a.requisites@[i])) {
        assert forall|i: int| 0 <= i < a.requisites@.len() implies some_acquired(known, #[trigger] a.requisites@[i]) by {
            assert(entry_acquired(known, a.requisites@[i]));
            let k = choose|k: int| 0 <= k < known.len() && (#[trigger] known[k]).id == a.requisites@[i]
                && known[k].state == KnowledgeState::Acquired;
            assert(known[k].id == a.requisites@[i]);
        }
    }
}

/// The player has no entry about `a` and every requisite of `a` has an
/// acquired entry.
pub open spec fn unknown_with_requisites_acquired(a: AchievementDesc, known: Seq<KnowledgeEntry>) -> bool {
    &&& forall|e: int| 0 <= e < known.len() ==> (#[trigger] known[e]).id != a.id
    &&& forall|i: int| 0 <= i < a.requisites@.len() ==> entry_acquired(known, #[trigger] a.requisites@[i])
}

/// Every id `discover_eligible` lists is that of an achievement, among
/// those given, that the player has no entry about and whose requisites
/// all have acquired entries.
pub proof fn law_discovered_only_with_acquired_requisites(achievements: Seq<AchievementDesc>, known: Seq<KnowledgeEntry>, n: int)
    requires
        0 <= n <= achievements.len(),
    ensures
        forall|k: int|
            #![trigger eligible_ids(achievements, known, n)[k]]
            0 <= k < eligible_ids(achievements, known, n).len() ==> exists|j: int|
                0 <= j < n && (#[trigger] achievements[j]).id == eligible_ids(achievements, known, n)[k]
                    && unknown_with_requisites_acquired(achievements[j], known),
    decreases n,
{
    if n > 0 {
        law_discovered_only_with_acquired_requisites(achievements, known, n - 1);
        let prev = eligible_ids(achievements, known, n - 1);
        let out = eligible_ids(achievements, known, n);
        law_eligible_needs_acquired_requisites(achievements[n - 1], known);
        assert forall|k: int| #![trigger out[k]] 0 <= k < out.len() implies exists|j: int|
            0 <= j < n && (#[trigger] achievements[j]).id == out[k] && unknown_with_requisites_acquired(achievements[j], known) by {
            if k < prev.len() {
                assert(out[k] == prev[k]);
                assert(prev[k] == eligible_ids(achievements, known, n - 1)[k]);
                let j = choose|j: int|
                    0 <= j < n - 1 && (#[trigger] achievements[j]).id == prev[k] && unknown_with_requisites_acquired(achievements[j], known);
                assert(achievements[j].id == out[k]);
            } else {
                assert(eligible(achievements[n - 1], known));
                assert(out[k] == achievements[n - 1].id);
                assert(unknown_with_requisites_acquired(achievements[n - 1], known));
            }
        }
    }
}

} // verus!
