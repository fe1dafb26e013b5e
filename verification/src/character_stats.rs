//! Skills and the character stats that speed them up or make them stronger.
use vstd::prelude::*;

verus! {

/// A skill a player levels.
#[derive(Clone, Copy, Debug, PartialEq, Eq, Structural)]
pub enum SkillType {
    Forestry,
    Carpentry,
    Masonry,
    Mining,
    Smithing,
    Scholar,
    Leatherworking,
    Hunting,
    Tailoring,
    Farming,
    Fishing,
    Cooking,
    Foraging,
    Construction,
    /// Any skill that no stat modifies.
    Other,
}

/// A character stat that modifies a skill.
#[derive(Clone, Copy, Debug, PartialEq, Eq, Structural)]
pub enum CharacterStatType {
    ForestrySpeed,
    CarpentrySpeed,
    MasonrySpeed,
    MiningSpeed,
    SmithingSpeed,
    ScholarSpeed,
    LeatherworkingSpeed,
    HuntingSpeed,
    TailoringSpeed,
    FarmingSpeed,
    FishingSpeed,
    CookingSpeed,
    ForagingSpeed,
    ForestryPower,
    CarpentryPower,
    MasonryPower,
    MiningPower,
    SmithingPower,
    ScholarPower,
    LeatherworkingPower,
    HuntingPower,
    TailoringPower,
    FarmingPower,
    FishingPower,
    CookingPower,
    ForagingPower,
    ConstructionPower,
}

/// The stat that speeds a skill up: every skill but construction (and
/// those no stat modifies) has one.
pub fn stat_for_skill_speed(skill: SkillType) -> (r: Option<CharacterStatType>)
    ensures
        r is None <==> (skill == SkillType::Construction || skill == SkillType::Other),
        r matches Some(stat) ==> stat_skill(stat) == skill && is_speed(stat),
{
    match skill {
        SkillType::Forestry => Some(CharacterStatType::ForestrySpeed),
        SkillType::Carpentry => Some(CharacterStatType::CarpentrySpeed),
        SkillType::Masonry => Some(CharacterStatType::MasonrySpeed),
        SkillType::Mining => Some(CharacterStatType::MiningSpeed),
        SkillType::Smithing => Some(CharacterStatType::SmithingSpeed),
        SkillType::Scholar => Some(CharacterStatType::ScholarSpeed),
        SkillType::Leatherworking => Some(CharacterStatType::LeatherworkingSpeed),
        SkillType::Hunting => Some(CharacterStatType::HuntingSpeed),
        SkillType::Tailoring => Some(CharacterStatType::TailoringSpeed),
        SkillType::Farming => Some(CharacterStatType::FarmingSpeed),
        SkillType::Fishing => Some(CharacterStatType::FishingSpeed),
        SkillType::Cooking => Some(CharacterStatType::CookingSpeed),
        SkillType::Foraging => Some(CharacterStatType::ForagingSpeed),
        _ => None,
    }
}

/// The stat that makes a skill stronger: every skill (construction too)
/// but those no stat modifies has one.
pub fn stat_for_skill_power(skill: SkillType) -> (r: Option<CharacterStatType>)
    ensures
        r is None <==> skill == SkillType::Other,
        r matches Some(stat) ==> stat_skill(stat) == skill && !is_speed(stat),
{
    match skill {
        SkillType::Forestry => Some(CharacterStatType::ForestryPower),
        SkillType::Carpentry => Some(CharacterStatType::CarpentryPower),
        SkillType::Masonry => Some(CharacterStatType::MasonryPower),
        SkillType::Mining => Some(CharacterStatType::MiningPower),
        SkillType::Smithing => Some(CharacterStatType::SmithingPower),
        SkillType::Scholar => Some(CharacterStatType::ScholarPower),
        SkillType::Leatherworking => Some(CharacterStatType::LeatherworkingPower),
        SkillType::Hunting => Some(CharacterStatType::HuntingPower),
        SkillType::Tailoring => Some(CharacterStatType::TailoringPower),
        SkillType::Farming => Some(CharacterStatType::FarmingPower),
        SkillType::Fishing => Some(CharacterStatType::FishingPower),
        SkillType::Cooking => Some(CharacterStatType::CookingPower),
        SkillType::Foraging => Some(CharacterStatType::ForagingPower),
        SkillType::Construction => Some(CharacterStatType::ConstructionPower),
        _ => None,
    }
}

/// The skill a stat modifies.
pub open spec fn stat_skill(stat: CharacterStatType) -> SkillType {
    match stat {
        CharacterStatType::ForestrySpeed | CharacterStatType::ForestryPower => SkillType::Forestry,
        CharacterStatType::CarpentrySpeed | CharacterStatType::CarpentryPower => SkillType::Carpentry,
        CharacterStatType::MasonrySpeed | CharacterStatType::MasonryPower => SkillType::Masonry,
        CharacterStatType::MiningSpeed | CharacterStatType::MiningPower => SkillType::Mining,
        CharacterStatType::SmithingSpeed | CharacterStatType::SmithingPower => SkillType::Smithing,
        CharacterStatType::ScholarSpeed | CharacterStatType::ScholarPower => SkillType::Scholar,
        CharacterStatType::LeatherworkingSpeed | CharacterStatType::LeatherworkingPower => SkillType::Leatherworking,
        CharacterStatType::HuntingSpeed | CharacterStatType::HuntingPower => SkillType::Hunting,
        CharacterStatType::TailoringSpeed | CharacterStatType::TailoringPower => SkillType::Tailoring,
        CharacterStatType::FarmingSpeed | CharacterStatType::FarmingPower => SkillType::Farming,
        CharacterStatType::FishingSpeed | CharacterStatType::FishingPower => SkillType::Fishing,
        CharacterStatType::CookingSpeed | CharacterStatType::CookingPower => SkillType::Cooking,
        CharacterStatType::ForagingSpeed | CharacterStatType::ForagingPower => SkillType::Foraging,
        CharacterStatType::ConstructionPower => SkillType::Construction,
    }
}

/// Whether a stat is a speed (rather than a power).
pub open spec fn is_speed(stat: CharacterStatType) -> bool {
    match stat {
        CharacterStatType::ForestrySpeed | CharacterStatType::CarpentrySpeed | CharacterStatType::MasonrySpeed
        | CharacterStatType::MiningSpeed | CharacterStatType::SmithingSpeed | CharacterStatType::ScholarSpeed
        | CharacterStatType::LeatherworkingSpeed | CharacterStatType::HuntingSpeed | CharacterStatType::TailoringSpeed
        | CharacterStatType::FarmingSpeed | CharacterStatType::FishingSpeed | CharacterStatType::CookingSpeed
        | CharacterStatType::ForagingSpeed => true,
        _ => false,
    }
}

} // verus!
