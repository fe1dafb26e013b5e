//! Abilities gated behind knowledge, claim techs and skill levels.
use vstd::prelude::*;
use std::collections::HashMap;
use crate::achievement::{KnowledgeEntry, some_acquired};

verus! {

broadcast use vstd::std_specs::hash::group_hash_axioms;

/// A skill level a player must have reached.
#[derive(Clone, Copy, Debug, PartialEq, Eq, Structural)]
pub struct LevelRequirement {
    pub skill_id: i32,
    pub level: i32,
}

/// What unlocks an ability (or one variant of it, `ability_data`).
#[derive(Debug)]
pub struct AbilityUnlockDesc {
    pub ability_data: Option<i32>,
    pub blocking_knowledges: Vec<i32>,
    pub required_claim_tech_id: i32,
    pub required_knowledges: Vec<i32>,
    pub level_requirements: Vec<LevelRequirement>,
}

/// Why an ability may not be used.
#[derive(Clone, Copy, Debug, PartialEq, Eq, Structural)]
pub enum AbilityUnlockError {
    /// A knowledge the player acquired closes it off.
    NoLongerAvailable,
    /// None of the player's claims unlocked the tech it needs.
    MissingClaimTech,
    /// The player lacks a knowledge it needs.
    MissingKnowledge,
    /// The player's skill is below the level it needs.
    SkillTooLow,
}

impl AbilityUnlockError {
    /// The message shown to the player.
    pub fn message(&self) -> (r: String)
        ensures
            r@ == match self {
                AbilityUnlockError::NoLongerAvailable => "This ability is no longer available to you"@,
                AbilityUnlockError::MissingClaimTech => "You are missing the claim tech to perform this ability"@,
                AbilityUnlockError::MissingKnowledge => "You don't have the knowledge required to perform this ability"@,
                AbilityUnlockError::SkillTooLow => "Your skill level is too low to perform this ability."@,
            },
    {
        match self {
            AbilityUnlockError::NoLongerAvailable => String::from_str("This ability is no longer available to you"),
            AbilityUnlockError::MissingClaimTech => String::from_str("You are missing the claim tech to perform this ability"),
            AbilityUnlockError::MissingKnowledge => String::from_str("You don't have the knowledge required to perform this ability"),
            AbilityUnlockError::SkillTooLow => String::from_str("Your skill level is too low to perform this ability."),
        }
    }
}

/// Whether an unlock applies to the ability variant `ability_data`.
pub open spec fn unlock_matches(u: AbilityUnlockDesc, ability_data: i32) -> bool {
    match u.ability_data {
        Some(a) => a == ability_data,
        None => true,
    }
}

/// The verdict of the one unlock that applies.
pub open spec fn unlock_verdict(
    u: AbilityUnlockDesc,
    knowledge: Seq<KnowledgeEntry>,
    unlocked_claim_techs: Seq<i32>,
    skill_levels: Map<i32, i32>,
) -> Option<AbilityUnlockError> {
    if exists|i: int| 0 <= i < u.blocking_knowledges@.len() && some_acquired(knowledge, #[trigger] u.blocking_knowledges@[i]) {
        Some(AbilityUnlockError::NoLongerAvailable)
    } else if u.required_claim_tech_id != 0 && !unlocked_claim_techs.contains(u.required_claim_tech_id) {
        Some(AbilityUnlockError::MissingClaimTech)
    } else if exists|i: int| 0 <= i < u.required_knowledges@.len() && !some_acquired(knowledge, #[trigger] u.required_knowledges@[i]) {
        Some(AbilityUnlockError::MissingKnowledge)
    } else if exists|i: int|
        0 <= i < u.level_requirements@.len() && skill_levels[(#[trigger] u.level_requirements@[i]).skill_id]
            < u.level_requirements@[i].level {
        Some(AbilityUnlockError::SkillTooLow)
    } else {
        None
    }
}

/// The verdict for an ability: that of the first unlock that applies, or
/// none when no unlock gates it.
pub open spec fn ability_verdict(
    unlocks: Seq<AbilityUnlockDesc>,
    ability_data: i32,
    knowledge: Seq<KnowledgeEntry>,
    unlocked_claim_techs: Seq<i32>,
    skill_levels: Map<i32, i32>,
    i: int,
) -> Option<AbilityUnlockError>
    decreases unlocks.len() - i,
{
    if i < 0 || i >= unlocks.len() {
        None
    } else if unlock_matches(unlocks[i], ability_data) {
        unlock_verdict(unlocks[i], knowledge, unlocked_claim_techs, skill_levels)
    } else {
        ability_verdict(unlocks, ability_data, knowledge, unlocked_claim_techs, skill_levels, i + 1)
    }
}

/// Some entry of the player's knowledge about `id` is acquired.
pub open spec fn has_acquired(knowledge: Seq<KnowledgeEntry>, id: i32) -> bool {
    exists|k: int| 0 <= k < knowledge.len() && (#[trigger] knowledge[k]).id == id
        && knowledge[k].state == crate::achievement::KnowledgeState::Acquired
}

/// An unlock lets the player through only when no blocking knowledge is
/// acquired, the claim tech it needs (if any) is unlocked, every knowledge
/// it requires has an acquired entry (a merely discovered one does not
/// count) and every skill level is reached; when only a required knowledge
/// lacks an acquired entry, the player is told the knowledge is missing.
pub proof fn law_unlock_needs_acquired_knowledge(
    u: AbilityUnlockDesc,
    knowledge: Seq<KnowledgeEntry>,
    unlocked_claim_techs: Seq<i32>,
    skill_levels: Map<i32, i32>,
)
    ensures
        unlock_verdict(u, knowledge, unlocked_claim_techs, skill_levels) is None ==> {
            &&& forall|i: int| 0 <= i < u.required_knowledges@.len() ==> has_acquired(knowledge, #[trigger] u.required_knowledges@[i])
            &&& forall|i: int| 0 <= i < u.blocking_knowledges@.len() ==> !has_acquired(knowledge, #[trigger] u.blocking_knowledges@[i])
            &&& (u.required_claim_tech_id != 0 ==> unlocked_claim_techs.contains(u.required_claim_tech_id))
            &&& forall|i: int| 0 <= i < u.level_requirements@.len() ==> skill_levels[(#[trigger] u.level_requirements@[i]).skill_id]
                >= u.level_requirements@[i].level
        },
        ({
            &&& forall|i: int| 0 <= i < u.blocking_knowledges@.len() ==> !has_acquired(knowledge, #[trigger] u.blocking_knowledges@[i])
            &&& (u.required_claim_tech_id != 0 ==> unlocked_claim_techs.contains(u.required_claim_tech_id))
            &&& exists|i: int| 0 <= i < u.required_knowledges@.len() && !has_acquired(knowledge, #[trigger] u.required_knowledges@[i])
        }) ==> unlock_verdict(u, knowledge, unlocked_claim_techs, skill_levels) == Some(AbilityUnlockError::MissingKnowledge),
{
    assert forall|id: i32| has_acquired(knowledge, id) == some_acquired(knowledge, id) by {
        if has_acquired(knowledge, id) {
            let k = choose|k: int| 0 <= k < knowledge.len() && (#[trigger] knowledge[k]).id == id
                && knowledge[k].state == crate::achievement::KnowledgeState::Acquired;
            assert(some_acquired(knowledge, id));
        }
        if some_acquired(knowledge, id) {
            let k = choose|k: int| 0 <= k < knowledge.len() && (#[trigger] knowledge[k]).id == id
                && knowledge[k].state == crate::achievement::KnowledgeState::Acquired;
            assert(has_acquired(knowledge, id));
        }
    }
}

/// The first unlock that applies decides: when the ability is allowed,
/// that unlock's required knowledges all have acquired entries and its
/// skill levels are all reached.
pub proof fn law_allowed_ability_meets_its_unlock(
    unlocks: Seq<AbilityUnlockDesc>,
    ability_data: i32,
    knowledge: Seq<KnowledgeEntry>,
    unlocked_claim_techs: Seq<i32>,
    skill_levels: Map<i32, i32>,
    m: int,
)
    requires
        0 <= m < unlocks.len(),
        unlock_matches(unlocks[m], ability_data),
        forall|j: int| 0 <= j < m ==> !unlock_matches(#[trigger] unlocks[j], ability_data),
        ability_verdict(unlocks, ability_data, knowledge, unlocked_claim_techs, skill_levels, 0) is None,
    ensures
        forall|i: int| 0 <= i < unlocks[m].required_knowledges@.len() ==> has_acquired(knowledge, #[trigger] unlocks[m].required_knowledges@[i]),
        forall|i: int| 0 <= i < unlocks[m].level_requirements@.len() ==> skill_levels[(#[trigger] unlocks[m].level_requirements@[i]).skill_id]
            >= unlocks[m].level_requirements@[i].level,
{
    lemma_verdict_reaches(unlocks, ability_data, knowledge, unlocked_claim_techs, skill_levels, m, 0);
    law_unlock_needs_acquired_knowledge(unlocks[m], knowledge, unlocked_claim_techs, skill_levels);
}

/// Before the first unlock that applies, the verdict is passed on.
proof fn lemma_verdict_reaches(
    unlocks: Seq<AbilityUnlockDesc>,
    ability_data: i32,
    knowledge: Seq<KnowledgeEntry>,
    unlocked_claim_techs: Seq<i32>,
    skill_levels: Map<i32, i32>,
    m: int,
    i: int,
)
    requires
        0 <= i <= m < unlocks.len(),
        unlock_matches(unlocks[m], ability_data),
        forall|j: int| 0 <= j < m ==> !unlock_matches(#[trigger] unlocks[j], ability_data),
    ensures
        ability_verdict(unlocks, ability_data, knowledge, unlocked_claim_techs, skill_levels, i) == unlock_verdict(
            unlocks[m],
            knowledge,
            unlocked_claim_techs,
            skill_levels,
        ),
    decreases m - i,
{
    if i < m {
        assert(!unlock_matches(unlocks[i], ability_data));
        lemma_verdict_reaches(unlocks, ability_data, knowledge, unlocked_claim_techs, skill_levels, m, i + 1);
    }
}

/// Every skill some unlock asks a level of has a known level.
pub open spec fn levels_known(unlocks: Seq<AbilityUnlockDesc>, skill_levels: Map<i32, i32>) -> bool {
    forall|i: int, j: int| 0 <= i < unlocks.len() && 0 <= j < unlocks[i].level_requirements@.len() ==> skill_levels.contains_key(
        (#[trigger] unlocks[i].level_requirements@[j]).skill_id,
    )
}

fn acquired_any(knowledge: &Vec<KnowledgeEntry>, id: i32) -> (r: bool)
    ensures
        r == some_acquired(knowledge@, id),
{
    let n = knowledge.len();
    let mut i: usize = 0;
    while i < n
        invariant
            i <= n,
            n == knowledge@.len(),
            forall|k: int| 0 <= k < i ==> !((#[trigger] knowledge@[k]).id == id && knowledge@[k].state == crate::achievement::KnowledgeState::Acquired),
        decreases n - i,
    {
        if knowledge[i].id == id && knowledge[i].state == crate::achievement::KnowledgeState::Acquired {
            return true;
        }
        i = i + 1;
    }
    false
}

fn contains_id(ids: &Vec<i32>, id: i32) -> (r: bool)
    ensures
        r == ids@.contains(id),
{
    let n = ids.len();
    let mut i: usize = 0;
    while i < n
        invariant
            i <= n,
            n == ids@.len(),
            forall|k: int| 0 <= k < i ==> ids@[k] != id,
        decreases n - i,
    {
        if ids[i] == id {
            assert(ids@[i as int] == id);
            return true;
        }
        i = i + 1;
    }
    false
}

fn check_unlock(
    u: &AbilityUnlockDesc,
    knowledge: &Vec<KnowledgeEntry>,
    unlocked_claim_techs: &Vec<i32>,
    skill_levels: &HashMap<i32, i32>,
) -> (r: Option<AbilityUnlockError>)
    requires
        forall|j: int| 0 <= j < u.level_requirements@.len() ==> skill_levels@.contains_key(
            (#[trigger] u.level_requirements@[j]).skill_id,
        ),
    ensures
        r == unlock_verdict(*u, knowledge@, unlocked_claim_techs@, skill_levels@),
{
    let nb = u.blocking_knowledges.len();
    let mut i: usize = 0;
    while i < nb
        invariant
            i <= nb,
            nb == u.blocking_knowledges@.len(),
            forall|k: int| 0 <= k < i ==> !some_acquired(knowledge@, #[trigger] u.blocking_knowledges@[k]),
        decreases nb - i,
    {
        if acquired_any(knowledge, u.blocking_knowledges[i]) {
            return Some(AbilityUnlockError::NoLongerAvailable);
        }
        i = i + 1;
    }
    if u.required_claim_tech_id != 0 {
        if !contains_id(unlocked_claim_techs, u.required_claim_tech_id) {
            return Some(AbilityUnlockError::MissingClaimTech);
        }
    }
    let nr = u.required_knowledges.len();
    let mut i: usize = 0;
    while i < nr
        invariant
            i <= nr,
            nr == u.required_knowledges@.len(),
            forall|k: int| 0 <= k < u.blocking_knowledges@.len() ==> !some_acquired(knowledge@, #[trigger] u.blocking_knowledges@[k]),
            !(u.required_claim_tech_id != 0 && !unlocked_claim_techs@.contains(u.required_claim_tech_id)),
            forall|k: int| 0 <= k < i ==> some_acquired(knowledge@, #[trigger] u.required_knowledges@[k]),
        decreases nr - i,
    {
        if !acquired_any(knowledge, u.required_knowledges[i]) {
            return Some(AbilityUnlockError::MissingKnowledge);
        }
        i = i + 1;
    }
    let nl = u.level_requirements.len();
    let mut i: usize = 0;
    while i < nl
        invariant
            i <= nl,
            nl == u.level_requirements@.len(),
            forall|k: int| 0 <= k < u.blocking_knowledges@.len() ==> !some_acquired(knowledge@, #[trigger] u.blocking_knowledges@[k]),
            !(u.required_claim_tech_id != 0 && !unlocked_claim_techs@.contains(u.required_claim_tech_id)),
            forall|k: int| 0 <= k < u.required_knowledges@.len() ==> some_acquired(knowledge@, #[trigger] u.required_knowledges@[k]),
            forall|j: int| 0 <= j < u.level_requirements@.len() ==> skill_levels@.contains_key(
                (#[trigger] u.level_requirements@[j]).skill_id,
            ),
            forall|k: int| 0 <= k < i ==> !(skill_levels@[(#[trigger] u.level_requirements@[k]).skill_id]
                < u.level_requirements@[k].level),
        decreases nl - i,
    {
        let req = u.level_requirements[i];
        assert(skill_levels@.contains_key(u.level_requirements@[i as int].skill_id));
        let level: i32 = match skill_levels.get(&req.skill_id) {
            Some(l) => *l,
            None => 0,
        };
        if level < req.level {
            return Some(AbilityUnlockError::SkillTooLow);
        }
        i = i + 1;
    }
    None
}

impl AbilityUnlockDesc {
    /// Whether a player may use an ability variant: the first unlock of the
    /// ability that applies to the variant decides (a knowledge that closes
    /// it off, then the claim tech, the knowledges and the skill levels it
    /// needs); an ability no unlock applies to is free.
    pub fn evaluate(
        unlocks: &Vec<AbilityUnlockDesc>,
        ability_data: i32,
        secondary_knowledge: &Vec<KnowledgeEntry>,
        unlocked_claim_techs: &Vec<i32>,
        skill_levels: &HashMap<i32, i32>,
    ) -> (r: Result<(), AbilityUnlockError>)
        requires
            levels_known(unlocks@, skill_levels@),
        ensures
            match ability_verdict(unlocks@, ability_data, secondary_knowledge@, unlocked_claim_techs@, skill_levels@, 0) {
                Some(e) => r == Err::<(), AbilityUnlockError>(e),
                None => r is Ok,
            },
            r is Ok ==> forall|m: int|
                0 <= m < unlocks@.len() && unlock_matches(#[trigger] unlocks@[m], ability_data) && (forall|j: int|
                    0 <= j < m ==> !unlock_matches(#[trigger] unlocks@[j], ability_data)) ==> forall|i: int|
                    0 <= i < unlocks@[m].required_knowledges@.len() ==> has_acquired(
                        secondary_knowledge@,
                        #[trigger] unlocks@[m].required_knowledges@[i],
                    ),
    {
        proof {
            assert forall|m: int|
                0 <= m < unlocks@.len() && unlock_matches(#[trigger] unlocks@[m], ability_data) && (forall|j: int|
                    0 <= j < m ==> !unlock_matches(#[trigger] unlocks@[j], ability_data))
                    && ability_verdict(unlocks@, ability_data, secondary_knowledge@, unlocked_claim_techs@, skill_levels@, 0) is None
                implies forall|i: int|
                    0 <= i < unlocks@[m].required_knowledges@.len() ==> has_acquired(
                        secondary_knowledge@,
                        #[trigger] unlocks@[m].required_knowledges@[i],
                    ) by {
                law_allowed_ability_meets_its_unlock(unlocks@, ability_data, secondary_knowledge@, unlocked_claim_techs@, skill_levels@, m);
            }
        }
        let n = unlocks.len();
        let mut i: usize = 0;
        while i < n
            invariant
                i <= n,
                n == unlocks@.len(),
                levels_known(unlocks@, skill_levels@),
                (ability_verdict(unlocks@, ability_data, secondary_knowledge@, unlocked_claim_techs@, skill_levels@, 0) is None ==> forall|m: int|
                    0 <= m < unlocks@.len() && unlock_matches(#[trigger] unlocks@[m], ability_data) && (forall|j: int|
                        0 <= j < m ==> !unlock_matches(#[trigger] unlocks@[j], ability_data)) ==> forall|i: int|
                        0 <= i < unlocks@[m].required_knowledges@.len() ==> has_acquired(
                            secondary_knowledge@,
                            #[trigger] unlocks@[m].required_knowledges@[i],
                        )),
                ability_verdict(unlocks@, ability_data, secondary_knowledge@, unlocked_claim_techs@, skill_levels@, 0)
                    == ability_verdict(unlocks@, ability_data, secondary_knowledge@, unlocked_claim_techs@, skill_levels@, i as int),
            decreases n - i,
        {
            let u = &unlocks[i];
            let matching = match u.ability_data {
                Some(a) => a == ability_data,
                None => true,
            };
            if matching {
                assert(forall|j: int| 0 <= j < u.level_requirements@.len() ==> skill_levels@.contains_key(
                    (#[trigger] u.level_requirements@[j]).skill_id,
                )) by {
                    assert forall|j: int| 0 <= j < u.level_requirements@.len() implies skill_levels@.contains_key(
                        (#[trigger] u.level_requirements@[j]).skill_id,
                    ) by {
                        assert(unlocks@[i as int].level_requirements@[j] == u.level_requirements@[j]);
                    }
                }
                return match check_unlock(u, secondary_knowledge, unlocked_claim_techs, skill_levels) {
                    Some(e) => Err(e),
                    None => Ok(()),
                };
            }
            i = i + 1;
        }
        Ok(())
    }
}

} // verus!
