//! Quest chains: what a player must have done or hold to start one.
use vstd::prelude::*;
use crate::item_stack::ItemStack;
use crate::inventory::{InventoryState, held_by_id, requested};

verus! {

/// One requirement of a quest chain.
#[derive(Clone, Copy, Debug, PartialEq, Eq, Structural)]
pub enum QuestRequirement {
    PaddingNone,
    /// Another chain, completed first.
    QuestChain(i32),
    Achievement(i32),
    Collectible(i32),
    /// A level requirement; whether the player meets it is given with it.
    Level { met: bool },
    /// Items the player must hold.
    ItemStack(ItemStack),
    SecondaryKnowledge(i32),
}

/// Why a quest chain cannot be started.
#[derive(Clone, Copy, Debug, PartialEq, Eq, Structural)]
pub enum QuestError {
    PrerequisiteChainIncomplete,
    LevelTooLow,
    MissingRequiredItems,
}

impl QuestError {
    /// The message shown to the player.
    pub fn message(&self) -> (r: String)
        ensures
            r@ == match self {
                QuestError::PrerequisiteChainIncomplete => "Quest chain requirements not met: Prerequisite chain incomplete."@,
                QuestError::LevelTooLow => "Quest chain requirements not met: Player level requirement not met."@,
                QuestError::MissingRequiredItems => "Quest chain requirements not met: Missing required items."@,
            },
    {
        match self {
            QuestError::PrerequisiteChainIncomplete => String::from_str("Quest chain requirements not met: Prerequisite chain incomplete."),
            QuestError::LevelTooLow => String::from_str("Quest chain requirements not met: Player level requirement not met."),
            QuestError::MissingRequiredItems => String::from_str("Quest chain requirements not met: Missing required items."),
        }
    }
}

/// Whether the inventory holds the stack.
pub open spec fn holds_stack(pockets: Seq<crate::item_stack::Pocket>, stack: ItemStack) -> bool {
    requested(seq![stack], stack.item_id, stack.item_type) <= held_by_id(pockets, stack.item_id)
}

/// The first of requirements `i..` the player fails.
pub open spec fn requirements_verdict(
    reqs: Seq<QuestRequirement>,
    completed_chains: Seq<i32>,
    pockets: Seq<crate::item_stack::Pocket>,
    i: int,
) -> Option<QuestError>
    decreases reqs.len() - i,
{
    if i < 0 || i >= reqs.len() {
        None
    } else {
        let rest = requirements_verdict(reqs, completed_chains, pockets, i + 1);
        match reqs[i] {
            QuestRequirement::QuestChain(id) => if !completed_chains.contains(id) {
                Some(QuestError::PrerequisiteChainIncomplete)
            } else {
                rest
            },
            QuestRequirement::Level { met } => if !met {
                Some(QuestError::LevelTooLow)
            } else {
                rest
            },
            QuestRequirement::ItemStack(stack) => if !holds_stack(pockets, stack) {
                Some(QuestError::MissingRequiredItems)
            } else {
                rest
            },
            _ => rest,
        }
    }
}

/// A quest chain's requirements pass only when every prerequisite chain is
/// completed, every level requirement is met and every required stack is
/// held; and when they all are, they pass.
pub proof fn law_requirements_pass_when_all_met(
    reqs: Seq<QuestRequirement>,
    completed_chains: Seq<i32>,
    pockets: Seq<crate::item_stack::Pocket>,
    i: int,
)
    requires
        0 <= i <= reqs.len(),
    ensures
        requirements_verdict(reqs, completed_chains, pockets, i) is None <==> forall|j: int|
            i <= j < reqs.len() ==> match #[trigger] reqs[j] {
                QuestRequirement::QuestChain(id) => completed_chains.contains(id),
                QuestRequirement::Level { met } => met,
                QuestRequirement::ItemStack(stack) => holds_stack(pockets, stack),
                _ => true,
            },
    decreases reqs.len() - i,
{
    if i < reqs.len() {
        law_requirements_pass_when_all_met(reqs, completed_chains, pockets, i + 1);
    }
}

/// Checks a quest chain's requirements in order: completed prerequisite
/// chains (`completed_chains` lists the ids of the player's completed
/// chains), levels, and items in the player's inventory; the first failed
/// one is the error.
pub fn check_requirements(
    requirements: &Vec<QuestRequirement>,
    completed_chains: &Vec<i32>,
    inventory: &InventoryState,
) -> (r: Result<(), QuestError>)
    ensures
        match requirements_verdict(requirements@, completed_chains@, inventory.pockets@, 0) {
            Some(e) => r == Err::<(), QuestError>(e),
            None => r is Ok,
        },
{
    let n = requirements.len();
    let mut i: usize = 0;
    while i < n
        invariant
            i <= n,
            n == requirements@.len(),
            requirements_verdict(requirements@, completed_chains@, inventory.pockets@, 0) == requirements_verdict(
                requirements@,
                completed_chains@,
                inventory.pockets@,
                i as int,
            ),
        decreases n - i,
    {
        match requirements[i] {
            QuestRequirement::QuestChain(id) => {
                let mut found = false;
                let m = completed_chains.len();
                let mut k: usize = 0;
                while k < m
                    invariant
                        k <= m,
                        m == completed_chains@.len(),
                        found == exists|j: int| 0 <= j < k && completed_chains@[j] == id,
                    decreases m - k,
                {
                    if completed_chains[k] == id {
                        found = true;
                    }
                    k = k + 1;
                }
                proof {
                    if found {
                        let j = choose|j: int| 0 <= j < m && completed_chains@[j] == id;
                        assert(completed_chains@.contains(id));
                    }
                }
                if !found {
                    return Err(QuestError::PrerequisiteChainIncomplete);
                }
            },
            QuestRequirement::Level { met } => {
                if !met {
                    return Err(QuestError::LevelTooLow);
                }
            },
            QuestRequirement::ItemStack(stack) => {
                let wanted = vec![stack];
                assert(wanted@ =~= seq![stack]);
                if !inventory.has(&wanted) {
                    return Err(QuestError::MissingRequiredItems);
                }
                proof {
                    assert(wanted@[0] == stack);
                }
            },
            _ => {},
        }
        i = i + 1;
    }
    Ok(())
}

} // verus!
