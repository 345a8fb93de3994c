use red_black_maze::input::MovementIntent;

#[test]
fn movement_intent_w_plus_a_contains_both_components() {
    let intent = MovementIntent { forward: 1, strafe: -1 };
    assert!(!intent.is_zero());
    assert_eq!(intent.forward, 1);
    assert_eq!(intent.strafe, -1);
    assert_eq!(MovementIntent::from_keys(true, false, false, true), intent);
}

#[test]
fn movement_intent_opposite_keys_cancel_to_zero() {
    let intent = MovementIntent { forward: 1 - 1, strafe: 0 };
    assert!(intent.is_zero());
    let intent = MovementIntent { forward: 0, strafe: 1 - 1 };
    assert!(intent.is_zero());
    assert!(MovementIntent::from_keys(true, true, false, false).is_zero());
    assert!(MovementIntent::from_keys(false, false, true, true).is_zero());
}

#[test]
fn no_key_means_no_movement_and_each_key_has_its_axis() {
    assert!(MovementIntent::from_keys(false, false, false, false).is_zero());
    assert_eq!(MovementIntent::from_keys(false, true, false, false), MovementIntent { forward: -1, strafe: 0 });
    assert_eq!(MovementIntent::from_keys(false, false, true, false), MovementIntent { forward: 0, strafe: 1 });
}
