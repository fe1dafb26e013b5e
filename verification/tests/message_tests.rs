use bitcraft_game::ability_unlock::AbilityUnlockError;
use bitcraft_game::placement::PlacementError;
use bitcraft_game::quest::QuestError;
use bitcraft_game::waystone::WaystoneError;

#[test]
fn placement_errors_read_as_the_server_words_them() {
    assert_eq!(PlacementError::TooFar.message(), "Too far");
    assert_eq!(PlacementError::UnevenCorner.message(), "Can only build on a flat surface.");
    assert_eq!(PlacementError::UnevenSurface.message(), "Can only build on a flat surface");
    assert_eq!(PlacementError::NotNextToBuilding.message(), "Need to be next to a building to build it.");
    assert_eq!(PlacementError::RequiresPavingTier { tier: 3 }.message(), "This building requires tier {0} paving!|~3");
    assert_eq!(PlacementError::RequiresPavingTier { tier: 120 }.message(), "This building requires tier {0} paving!|~120");
    assert_eq!(PlacementError::RequiresPavingTier { tier: 0 }.message(), "This building requires tier {0} paving!|~0");
    assert_eq!(PlacementError::RequiresPavingTier { tier: -45 }.message(), "This building requires tier {0} paving!|~-45");
    assert_eq!(
        PlacementError::RequiresPavingTier { tier: i32::MIN }.message(),
        format!("This building requires tier {{0}} paving!|~{}", i32::MIN)
    );
}

#[test]
fn waystone_quest_and_ability_errors_have_their_messages() {
    assert_eq!(WaystoneError::WaystoneDoesNotExist.message(), "Charter stone does not exist.");
    assert_eq!(WaystoneError::TooFarAway.message(), "Too far away");
    assert_eq!(QuestError::LevelTooLow.message(), "Quest chain requirements not met: Player level requirement not met.");
    assert_eq!(AbilityUnlockError::MissingKnowledge.message(), "You don't have the knowledge required to perform this ability");
}
