use td_sandbox::economy::{can_recover, compute_scrap_value, endless_game_over};

#[test]
fn scrap_value_adds_loot_and_stolen() {
    assert_eq!(compute_scrap_value(10, 5), 15);
}

#[test]
fn scrap_value_zero_when_both_zero() {
    assert_eq!(compute_scrap_value(0, 0), 0);
}

#[test]
fn scrap_value_loot_only() {
    assert_eq!(compute_scrap_value(10, 0), 10);
}

#[test]
fn scrap_value_stolen_only() {
    assert_eq!(compute_scrap_value(0, 7), 7);
}

#[test]
fn no_recovery_when_both_empty() {
    assert!(!can_recover(true, true));
}

#[test]
fn recovery_possible_with_drops() {
    assert!(can_recover(false, true));
}

#[test]
fn recovery_possible_with_enemies() {
    assert!(can_recover(true, false));
}

#[test]
fn recovery_possible_with_both() {
    assert!(can_recover(false, false));
}

#[test]
fn endless_game_over_only_when_broke_and_stuck() {
    assert!(endless_game_over(0, true, true));
    assert!(!endless_game_over(1, true, true));
    assert!(!endless_game_over(0, false, true));
    assert!(!endless_game_over(0, true, false));
    assert!(!endless_game_over(500, false, false));
}
