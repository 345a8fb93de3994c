use red_black_maze::weapon::{
    Weapon, WeaponState, WeaponTier, FIRE_COOLDOWN_US, MAX_RESERVE_AMMO, RELOAD_DURATION_US,
};

/// Seconds of game time as microseconds (a non-finite or non-positive
/// step is no step).
fn secs(s: f32) -> u64 {
    if s.is_finite() && s > 0.0 {
        (s as f64 * 1_000_000.0).round() as u64
    } else {
        0
    }
}

/// Reload progress as a fraction.
fn progress_fraction(progress: u32) -> f32 {
    progress as f32 / 1_000_000.0
}

/// Carries the weapon through `Fire -> Recoil -> Idle` and past its
/// cooldown, ready for another `try_fire`.
fn advance_until_ready(weapon: &mut Weapon) {
    weapon.update(FIRE_COOLDOWN_US + secs(0.05));
}

#[test]
fn new_weapon_starts_with_six_ammo() {
    let weapon = Weapon::new();
    assert_eq!(weapon.ammo(), 6);
}

#[test]
fn accepted_shot_consumes_one_ammo() {
    let mut weapon = Weapon::new();
    assert!(weapon.try_fire());
    assert_eq!(weapon.ammo(), 5);
}

#[test]
fn rejected_shot_during_cooldown_does_not_consume_ammo() {
    let mut weapon = Weapon::new();
    assert!(weapon.try_fire());
    assert_eq!(weapon.ammo(), 5);
    assert!(!weapon.try_fire());
    assert_eq!(weapon.ammo(), 5);
}

#[test]
fn six_accepted_shots_reduce_ammo_to_zero() {
    let mut weapon = Weapon::new();
    for expected_remaining in (0..6).rev() {
        assert!(weapon.try_fire());
        assert_eq!(weapon.ammo(), expected_remaining);
        advance_until_ready(&mut weapon);
    }
    assert_eq!(weapon.ammo(), 0);
}

#[test]
fn zero_ammo_try_fire_returns_false() {
    let mut weapon = Weapon::new();
    for _ in 0..6 {
        assert!(weapon.try_fire());
        advance_until_ready(&mut weapon);
    }
    assert_eq!(weapon.ammo(), 0);
    assert!(!weapon.try_fire());
}

#[test]
fn zero_ammo_stays_zero_and_does_not_underflow() {
    let mut weapon = Weapon::new();
    for _ in 0..6 {
        assert!(weapon.try_fire());
        advance_until_ready(&mut weapon);
    }
    for _ in 0..3 {
        assert!(!weapon.try_fire());
        assert_eq!(weapon.ammo(), 0);
    }
}

#[test]
fn rejected_zero_ammo_trigger_does_not_enter_fire() {
    let mut weapon = Weapon::new();
    for _ in 0..6 {
        assert!(weapon.try_fire());
        advance_until_ready(&mut weapon);
    }
    assert_eq!(weapon.state(), WeaponState::Idle);
    assert!(!weapon.try_fire());
    assert_eq!(weapon.state(), WeaponState::Idle);
    assert_eq!(weapon.ammo(), 0);
}

#[test]
fn new_weapon_starts_with_eighteen_reserve() {
    let weapon = Weapon::new();
    assert_eq!(weapon.ammo(), 6);
    assert_eq!(weapon.reserve_ammo(), 18);
}

#[test]
fn cannot_start_reload_with_a_full_magazine() {
    let mut weapon = Weapon::new();
    assert_eq!(weapon.ammo(), 6);
    assert!(!weapon.try_start_reload());
    assert_eq!(weapon.state(), WeaponState::Idle);
}

#[test]
fn reload_starts_when_magazine_is_partial() {
    let mut weapon = Weapon::new();
    assert!(weapon.try_fire());
    advance_until_ready(&mut weapon);
    assert!(weapon.try_start_reload());
    assert_eq!(weapon.state(), WeaponState::Reload);
}

#[test]
fn reload_does_not_transfer_ammo_immediately() {
    let mut weapon = Weapon::new();
    assert!(weapon.try_fire());
    advance_until_ready(&mut weapon);
    assert_eq!(weapon.ammo(), 5);
    assert!(weapon.try_start_reload());
    assert_eq!(weapon.state(), WeaponState::Reload);
    assert_eq!(weapon.ammo(), 5);
    assert_eq!(weapon.reserve_ammo(), 18);
}

#[test]
fn cannot_fire_while_reloading() {
    let mut weapon = Weapon::new();
    assert!(weapon.try_fire());
    advance_until_ready(&mut weapon);
    assert!(weapon.try_start_reload());
    assert_eq!(weapon.state(), WeaponState::Reload);
    assert!(!weapon.try_fire());
    assert_eq!(weapon.ammo(), 5);
}

#[test]
fn reload_completes_after_duration() {
    let mut weapon = Weapon::new();
    assert!(weapon.try_fire());
    advance_until_ready(&mut weapon);
    assert!(weapon.try_start_reload());
    weapon.update(RELOAD_DURATION_US - secs(0.01));
    assert_eq!(weapon.state(), WeaponState::Reload);
    weapon.update(secs(0.02));
    assert_eq!(weapon.state(), WeaponState::Idle);
}

#[test]
fn skipping_update_calls_freezes_reload_exactly_like_a_pause_menu_would() {
    let mut weapon = Weapon::new();
    assert!(weapon.try_fire());
    advance_until_ready(&mut weapon);
    assert!(weapon.try_start_reload());
    weapon.update(secs(0.30));
    assert_eq!(weapon.state(), WeaponState::Reload);
    // Paused: no update at all for a while.
    weapon.update(secs(0.49));
    assert_eq!(weapon.state(), WeaponState::Reload);
    weapon.update(secs(0.02));
    assert_eq!(weapon.state(), WeaponState::Idle);
}

#[test]
fn reload_progress_is_none_while_not_reloading() {
    let weapon = Weapon::new();
    assert_eq!(weapon.reload_progress(), None);
}

#[test]
fn reload_progress_is_approximately_zero_just_after_acceptance() {
    let mut weapon = Weapon::new();
    assert!(weapon.try_fire());
    advance_until_ready(&mut weapon);
    assert!(weapon.try_start_reload());
    let progress = progress_fraction(weapon.reload_progress().expect("it must be reloading"));
    assert!((progress - 0.0).abs() < 1e-6);
}

#[test]
fn reload_progress_is_approximately_half_at_the_midpoint() {
    let mut weapon = Weapon::new();
    assert!(weapon.try_fire());
    advance_until_ready(&mut weapon);
    assert!(weapon.try_start_reload());
    weapon.update(RELOAD_DURATION_US / 2);
    let progress = progress_fraction(weapon.reload_progress().expect("it must be reloading"));
    assert!((progress - 0.5).abs() < 0.01);
}

#[test]
fn reload_progress_is_none_again_once_completed() {
    let mut weapon = Weapon::new();
    assert!(weapon.try_fire());
    advance_until_ready(&mut weapon);
    assert!(weapon.try_start_reload());
    weapon.update(RELOAD_DURATION_US + secs(0.01));
    assert_eq!(weapon.state(), WeaponState::Idle);
    assert_eq!(weapon.reload_progress(), None);
}

#[test]
fn reload_progress_never_exceeds_the_normalized_range() {
    let mut weapon = Weapon::new();
    assert!(weapon.try_fire());
    advance_until_ready(&mut weapon);
    assert!(weapon.try_start_reload());
    for _ in 0..50 {
        weapon.update(secs(0.01));
        if let Some(progress) = weapon.reload_progress() {
            assert!((0.0..=1.0).contains(&progress_fraction(progress)));
        }
    }
}

#[test]
fn partial_reload_calculation_four_to_six() {
    let mut weapon = Weapon::new();
    for _ in 0..2 {
        assert!(weapon.try_fire());
        advance_until_ready(&mut weapon);
    }
    assert_eq!(weapon.ammo(), 4);
    assert!(weapon.try_start_reload());
    weapon.update(RELOAD_DURATION_US + secs(0.01));
    assert_eq!(weapon.ammo(), 6);
    assert_eq!(weapon.reserve_ammo(), 16);
}

#[test]
fn empty_magazine_reload_zero_to_six() {
    let mut weapon = Weapon::new();
    for _ in 0..6 {
        assert!(weapon.try_fire());
        advance_until_ready(&mut weapon);
    }
    assert_eq!(weapon.ammo(), 0);
    assert!(weapon.try_start_reload());
    weapon.update(RELOAD_DURATION_US + secs(0.01));
    assert_eq!(weapon.ammo(), 6);
    assert_eq!(weapon.reserve_ammo(), 12);
}

fn empty_every_round(weapon: &mut Weapon) {
    for _ in 0..4 {
        for _ in 0..6 {
            assert!(weapon.try_fire());
            advance_until_ready(weapon);
        }
        if weapon.reserve_ammo() > 0 {
            assert!(weapon.try_start_reload());
            weapon.update(RELOAD_DURATION_US + secs(0.01));
        }
    }
}

#[test]
fn insufficient_reserve_loads_only_what_is_available() {
    let mut weapon = Weapon::new();
    empty_every_round(&mut weapon);
    assert_eq!(weapon.ammo(), 0);
    assert_eq!(weapon.reserve_ammo(), 0);
}

#[test]
fn insufficient_reserve_partial_load_example() {
    let mut weapon = Weapon::new();
    for _ in 0..2 {
        for _ in 0..6 {
            assert!(weapon.try_fire());
            advance_until_ready(&mut weapon);
        }
        assert!(weapon.try_start_reload());
        weapon.update(RELOAD_DURATION_US + secs(0.01));
    }
    assert_eq!(weapon.ammo(), 6);
    assert_eq!(weapon.reserve_ammo(), 6);
    for _ in 0..3 {
        assert!(weapon.try_fire());
        advance_until_ready(&mut weapon);
    }
    assert!(weapon.try_start_reload());
    weapon.update(RELOAD_DURATION_US + secs(0.01));
    assert_eq!(weapon.ammo(), 6);
    assert_eq!(weapon.reserve_ammo(), 3);
    for _ in 0..6 {
        assert!(weapon.try_fire());
        advance_until_ready(&mut weapon);
    }
    assert_eq!(weapon.ammo(), 0);
    assert_eq!(weapon.reserve_ammo(), 3);
    assert!(weapon.try_start_reload());
    weapon.update(RELOAD_DURATION_US + secs(0.01));
    assert_eq!(weapon.ammo(), 3);
    assert_eq!(weapon.reserve_ammo(), 0);
}

#[test]
fn reserve_zero_prevents_reload() {
    let mut weapon = Weapon::new();
    empty_every_round(&mut weapon);
    assert_eq!(weapon.reserve_ammo(), 0);
    assert_eq!(weapon.ammo(), 0);
    assert!(!weapon.try_start_reload());
    assert_eq!(weapon.state(), WeaponState::Idle);
}

#[test]
fn starting_reload_again_while_reloading_does_not_reset_timer() {
    let mut weapon = Weapon::new();
    assert!(weapon.try_fire());
    advance_until_ready(&mut weapon);
    assert!(weapon.try_start_reload());
    weapon.update(RELOAD_DURATION_US - secs(0.01));
    assert!(!weapon.try_start_reload());
    weapon.update(secs(0.02));
    assert_eq!(weapon.state(), WeaponState::Idle);
}

#[test]
fn reload_is_frame_time_based() {
    let mut weapon = Weapon::new();
    assert!(weapon.try_fire());
    advance_until_ready(&mut weapon);
    assert!(weapon.try_start_reload());
    for _ in 0..79 {
        weapon.update(secs(0.01));
    }
    assert_eq!(weapon.state(), WeaponState::Reload);
    weapon.update(secs(0.05));
    assert_eq!(weapon.state(), WeaponState::Idle);
}

#[test]
fn weapon_returns_to_idle_after_reload_completion() {
    let mut weapon = Weapon::new();
    assert!(weapon.try_fire());
    advance_until_ready(&mut weapon);
    assert!(weapon.try_start_reload());
    weapon.update(RELOAD_DURATION_US + secs(0.01));
    assert_eq!(weapon.state(), WeaponState::Idle);
}

#[test]
fn fire_works_again_after_reload() {
    let mut weapon = Weapon::new();
    for _ in 0..6 {
        assert!(weapon.try_fire());
        advance_until_ready(&mut weapon);
    }
    assert_eq!(weapon.ammo(), 0);
    assert!(weapon.try_start_reload());
    weapon.update(RELOAD_DURATION_US + secs(0.01));
    assert_eq!(weapon.ammo(), 6);
    assert!(weapon.try_fire());
    assert_eq!(weapon.ammo(), 5);
}

#[test]
fn ammo_never_goes_negative_or_underflows() {
    let mut weapon = Weapon::new();
    empty_every_round(&mut weapon);
    assert!(!weapon.try_fire());
    assert!(!weapon.try_start_reload());
    assert_eq!(weapon.ammo(), 0);
    assert_eq!(weapon.reserve_ammo(), 0);
}

#[test]
fn one_long_step_equals_many_short_steps() {
    let mut long = Weapon::new();
    let mut short = Weapon::new();
    assert!(long.try_fire());
    assert!(short.try_fire());
    long.update(120_000);
    for _ in 0..12 {
        short.update(10_000);
    }
    assert_eq!(long.state(), WeaponState::Recoil);
    assert_eq!(short.state(), WeaponState::Recoil);
    assert_eq!(long.cooldown_remaining(), 130_000);
    assert_eq!(short.cooldown_remaining(), 130_000);
}

#[test]
fn fire_recoil_idle_timeline_and_cooldown() {
    let mut weapon = Weapon::new();
    assert!(weapon.try_fire());
    assert_eq!(weapon.state(), WeaponState::Fire);
    assert_eq!(weapon.cooldown_remaining(), FIRE_COOLDOWN_US);
    weapon.update(49_999);
    assert_eq!(weapon.state(), WeaponState::Fire);
    weapon.update(1);
    assert_eq!(weapon.state(), WeaponState::Recoil);
    weapon.update(100_000);
    assert_eq!(weapon.state(), WeaponState::Idle);
    // Idle, but the cooldown (250 ms) is still running.
    assert!(!weapon.try_fire());
    weapon.update(100_000);
    assert_eq!(weapon.cooldown_remaining(), 0);
    assert!(weapon.try_fire());
}

#[test]
fn reserve_additions_are_capped_and_report_what_was_added() {
    let mut weapon = Weapon::new();
    assert_eq!(weapon.add_reserve_ammo(6), 6);
    assert_eq!(weapon.reserve_ammo(), 24);
    assert_eq!(weapon.add_reserve_ammo(10), 6);
    assert_eq!(weapon.reserve_ammo(), MAX_RESERVE_AMMO);
    assert_eq!(weapon.add_reserve_ammo(6), 0);
    assert_eq!(weapon.ammo(), 6);
}

#[test]
fn tiers_decide_the_damage_and_changing_tier_keeps_the_ammunition() {
    let mut weapon = Weapon::new();
    assert_eq!(weapon.tier(), WeaponTier::Standard);
    assert_eq!(WeaponTier::Standard.damage(), 50);
    assert_eq!(WeaponTier::RoyalFlush.damage(), 100);
    assert!(weapon.try_fire());
    weapon.set_tier(WeaponTier::RoyalFlush);
    assert_eq!(weapon.tier(), WeaponTier::RoyalFlush);
    assert_eq!(weapon.ammo(), 5);
    assert_eq!(weapon.reserve_ammo(), 18);
    assert_eq!(weapon.state(), WeaponState::Fire);
}
