use std::collections::HashMap;

use bitcraft_game::resources::{begin_regen_round, clump_round_attempts, drop_clumps};

#[test]
fn a_round_runs_while_clumps_and_attempts_are_left() {
    let mut attempts = 2;
    assert!(begin_regen_round(3, &mut attempts));
    assert_eq!(attempts, 1);
    assert!(begin_regen_round(3, &mut attempts));
    assert_eq!(attempts, 0);
    assert!(!begin_regen_round(3, &mut attempts));
    assert_eq!(attempts, 0);
    let mut attempts = 5;
    assert!(!begin_regen_round(0, &mut attempts));
    assert_eq!(attempts, 5);
}

#[test]
fn a_clump_gets_attempts_for_a_tenth_of_what_is_missing() {
    let mut missing: HashMap<i32, usize> = HashMap::new();
    missing.insert(1, 45);
    missing.insert(2, 10);
    assert_eq!(clump_round_attempts(&vec![(1, 1)], &missing), Some(5));
    assert_eq!(clump_round_attempts(&vec![(1, 1), (2, 2)], &missing), Some(1));
    assert_eq!(clump_round_attempts(&vec![(2, 11)], &missing), None);
}

#[test]
fn exhausted_clumps_are_dropped_in_order() {
    let mut clumps = vec![(7, vec![(1, 1)]), (8, vec![(2, 1)]), (9, vec![(1, 2)])];
    drop_clumps(&mut clumps, &vec![8]);
    assert_eq!(clumps, vec![(7, vec![(1, 1)]), (9, vec![(1, 2)])]);
    drop_clumps(&mut clumps, &vec![]);
    assert_eq!(clumps.len(), 2);
    drop_clumps(&mut clumps, &vec![9, 7]);
    assert!(clumps.is_empty());
}
