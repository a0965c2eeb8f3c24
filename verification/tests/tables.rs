use spectre_v1::probe::{builtin_probe_order, probe_order_ok};
use spectre_v1::schedule::{init_attack, training_schedule};
use spectre_v1::tuning::{ATTACK_LEAP, TRAINING_LOOPS};

#[test]
fn builtin_order_visits_every_value_once() {
    let order = builtin_probe_order();
    assert_eq!(order.len(), 256);
    let mut visits = [0u32; 256];
    for value in &order {
        visits[*value as usize] += 1;
    }
    for value in 0..256 {
        assert_eq!(visits[value], 1);
    }
}

#[test]
fn builtin_order_is_the_known_table() {
    let order = builtin_probe_order();
    assert_eq!(&order[..8], &[133, 211, 224, 148, 141, 69, 183, 14]);
    assert_eq!(&order[248..], &[189, 234, 68, 116, 137, 42, 56, 50]);
    assert_eq!(order[133], 0);
    assert!(probe_order_ok(&order));
}

#[test]
fn ascending_order_is_refused() {
    let ascending: Vec<u8> = (0..=255u8).collect();
    assert!(!probe_order_ok(&ascending));
}

#[test]
fn order_with_a_repeated_value_is_refused() {
    let mut order = builtin_probe_order();
    order[10] = order[200];
    assert!(!probe_order_ok(&order));
    assert!(!probe_order_ok(&vec![7u8; 256]));
}

#[test]
fn order_of_another_length_is_refused() {
    let mut order = builtin_probe_order();
    order.pop();
    assert!(!probe_order_ok(&order));
    assert!(!probe_order_ok(&Vec::new()));
    let mut longer = builtin_probe_order();
    longer.push(0);
    assert!(!probe_order_ok(&longer));
}

#[test]
fn other_permutations_are_accepted() {
    let descending: Vec<u8> = (0..=255u8).rev().collect();
    assert!(probe_order_ok(&descending));
    let mut swapped: Vec<u8> = (0..=255u8).collect();
    swapped.swap(254, 255);
    assert!(probe_order_ok(&swapped));
}

#[test]
fn schedule_attacks_on_every_tenth_loop() {
    let (is_attack, _) = init_attack();
    assert_eq!(is_attack.len(), TRAINING_LOOPS);
    assert_eq!(is_attack.len(), 100);
    let attacks = is_attack.iter().filter(|attack| **attack).count();
    assert_eq!(attacks, TRAINING_LOOPS / ATTACK_LEAP);
    assert_eq!(attacks, 10);
    for (at, attack) in is_attack.iter().enumerate() {
        assert_eq!(*attack, at % 10 == 0);
    }
}

#[test]
fn init_attack_gives_the_builtin_order() {
    let (_, attack_pattern) = init_attack();
    assert_eq!(attack_pattern, builtin_probe_order());
    assert!(probe_order_ok(&attack_pattern));
}

#[test]
fn schedule_with_a_leap_that_does_not_divide() {
    assert_eq!(training_schedule(5, 2), vec![true, false, true, false, true]);
    assert_eq!(training_schedule(7, 3), vec![true, false, false, true, false, false, true]);
}

#[test]
fn schedule_edge_cases() {
    assert_eq!(training_schedule(0, 4), Vec::<bool>::new());
    assert_eq!(training_schedule(3, 1), vec![true, true, true]);
    assert_eq!(training_schedule(3, 10), vec![true, false, false]);
    assert_eq!(training_schedule(4, 4), vec![true, false, false, false]);
}
