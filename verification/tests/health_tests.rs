use red_black_maze::health::{PlayerHealth, PLAYER_MAX_HEALTH};

fn new_test_player() -> PlayerHealth {
    PlayerHealth::new()
}

#[test]
fn new_player_starts_with_full_health() {
    let player = new_test_player();
    assert_eq!(player.health(), PLAYER_MAX_HEALTH);
    assert_eq!(player.health(), 100);
}

#[test]
fn ordinary_damage_reduces_health_and_returns_the_amount_applied() {
    let mut player = new_test_player();
    let applied = player.apply_damage(10);
    assert_eq!(player.health(), 90);
    assert_eq!(applied, 10);
}

#[test]
fn damage_exceeding_remaining_health_clamps_to_zero() {
    let mut player = new_test_player();
    player.apply_damage(95);
    assert_eq!(player.health(), 5);
    let applied = player.apply_damage(10);
    assert_eq!(player.health(), 0);
    assert_eq!(applied, 5);
}

#[test]
fn damage_at_zero_health_applies_nothing_and_never_underflows() {
    let mut player = new_test_player();
    player.apply_damage(1000);
    assert_eq!(player.health(), 0);
    let applied = player.apply_damage(10);
    assert_eq!(player.health(), 0);
    assert_eq!(applied, 0);
}

#[test]
fn non_positive_damage_is_a_no_op() {
    let mut player = new_test_player();
    assert_eq!(player.apply_damage(0), 0);
    assert_eq!(player.apply_damage(-10), 0);
    assert_eq!(player.health(), PLAYER_MAX_HEALTH);
}

#[test]
fn ordinary_heal_increases_health_and_returns_the_amount_applied() {
    let mut player = new_test_player();
    player.apply_damage(40);
    assert_eq!(player.health(), 60);
    let applied = player.heal(20);
    assert_eq!(player.health(), 80);
    assert_eq!(applied, 20);
}

#[test]
fn heal_clamps_at_the_maximum_and_returns_only_what_was_missing() {
    let mut player = new_test_player();
    player.apply_damage(10);
    assert_eq!(player.health(), 90);
    let applied = player.heal(20);
    assert_eq!(player.health(), PLAYER_MAX_HEALTH);
    assert_eq!(applied, 10);
}

#[test]
fn heal_at_full_health_applies_nothing() {
    let mut player = new_test_player();
    assert_eq!(player.health(), PLAYER_MAX_HEALTH);
    let applied = player.heal(20);
    assert_eq!(player.health(), PLAYER_MAX_HEALTH);
    assert_eq!(applied, 0);
}

#[test]
fn non_positive_heal_is_a_no_op() {
    let mut player = new_test_player();
    player.apply_damage(50);
    assert_eq!(player.heal(0), 0);
    assert_eq!(player.heal(-10), 0);
    assert_eq!(player.health(), 50);
}

#[test]
fn exact_heal_lands_precisely_on_the_maximum() {
    let mut player = new_test_player();
    player.apply_damage(20);
    assert_eq!(player.health(), 80);
    let applied = player.heal(20);
    assert_eq!(player.health(), PLAYER_MAX_HEALTH);
    assert_eq!(applied, 20);
}

#[test]
fn extreme_amounts_stay_within_bounds() {
    let mut player = new_test_player();
    assert_eq!(player.heal(i32::MAX), 0);
    assert_eq!(player.apply_damage(i32::MAX), 100);
    assert_eq!(player.health(), 0);
    assert_eq!(player.heal(i32::MAX), 100);
    assert_eq!(player.health(), 100);
}
