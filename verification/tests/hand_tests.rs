use std::collections::HashSet;

use red_black_maze::distance::DistanceField;
use red_black_maze::hand::{
    extra_ammo_pickups_needed, first_hand_dealer_count, health_pickup_target_for_hand,
    spawn_seed_for_emergency_ammo, spawn_seed_for_hand, spawn_seed_for_health_replenish,
    spawn_seed_for_king, spawn_seed_for_royal_flush, HandHudMessage, HandOutcome, HandPhase,
    HordeManager, GLOBAL_HARD_DEALER_CAP,
};
use red_black_maze::level::Level;
use red_black_maze::placement::{
    cell_chebyshev, select_emergency_ammo_cells, select_encircling_cells, select_spawn_cells, select_split_ammo_cells,
    select_with_clusters, MIN_AMMO_SEPARATION_CELLS, SAFE_RESPAWN_DISTANCE_CELLS,
};
use red_black_maze::rng::Rng;

const BLOCK_SIZE: f32 = 48.0;

/// Seconds of game time as the microseconds the library counts in;
/// non-finite and non-positive steps are no steps at all.
fn secs(s: f32) -> u64 {
    if s.is_finite() && s > 0.0 {
        (s as f64 * 1_000_000.0).round() as u64
    } else {
        0
    }
}

/// The grid cell of a world position.
fn world_to_cell(x: f32, y: f32) -> (usize, usize) {
    ((y / BLOCK_SIZE).floor().max(0.0) as usize, (x / BLOCK_SIZE).floor().max(0.0) as usize)
}

/// The cells within the player's immediate view cone (six cells, a cone
/// of half-angle 60 degrees).
fn view_cone(level: &Level, x: f32, y: f32, facing: f32) -> Vec<Vec<bool>> {
    let mut flags = Vec::new();
    for row in 0..level.height() {
        let mut line = Vec::new();
        for column in 0..level.width() {
            line.push(is_immediately_visible(row, column, x, y, facing));
        }
        flags.push(line);
    }
    flags
}

fn is_immediately_visible(row: usize, column: usize, x: f32, y: f32, facing: f32) -> bool {
    let half = BLOCK_SIZE / 2.0;
    let dx = column as f32 * BLOCK_SIZE + half - x;
    let dy = row as f32 * BLOCK_SIZE + half - y;
    let distance = dx.hypot(dy);
    if distance > BLOCK_SIZE * 6.0 || distance <= f32::EPSILON {
        return false;
    }
    (dx / distance) * facing.cos() + (dy / distance) * facing.sin() >= 0.5
}

fn spawn_cells(
    level: &Level,
    x: f32,
    y: f32,
    facing: f32,
    occupied: &[(usize, usize)],
    count: usize,
    use_clusters: bool,
    seed: u64,
) -> Vec<(usize, usize)> {
    let flags = view_cone(level, x, y, facing);
    select_spawn_cells(level, world_to_cell(x, y), &flags, &occupied.to_vec(), count, use_clusters, seed)
}

fn split_cells(
    level: &Level,
    x: f32,
    y: f32,
    facing: f32,
    occupied: &[(usize, usize)],
    easy: usize,
    hard: usize,
    seed: u64,
) -> Vec<(usize, usize)> {
    let flags = view_cone(level, x, y, facing);
    select_split_ammo_cells(level, world_to_cell(x, y), &flags, &occupied.to_vec(), easy, hard, seed)
}

fn emergency_cells(level: &Level, x: f32, y: f32, occupied: &[(usize, usize)], count: usize, seed: u64) -> Vec<(usize, usize)> {
    select_emergency_ammo_cells(level, world_to_cell(x, y), &occupied.to_vec(), count, seed)
}

#[test]
fn starts_at_hand_one_with_the_level_initial_count() {
    let state = HordeManager::new(4);
    assert_eq!(state.hand_number(), 1);
    assert_eq!(state.phase(), HandPhase::Active);
}

fn run_full_reload(state: &mut HordeManager, level_cap: usize) -> usize {
    assert_eq!(state.tick(secs(0.016), 0, level_cap, usize::MAX), None);
    let mut spawned = None;
    let mut elapsed = 0.0;
    while elapsed < 4.5 {
        if let Some(outcome) = state.tick(secs(0.05), 0, level_cap, usize::MAX) {
            spawned = Some(outcome);
            break;
        }
        elapsed += 0.05;
    }
    match spawned.expect("the Hand must spawn within about 4 s") {
        HandOutcome::Spawn { dealer_count } => dealer_count,
        HandOutcome::FinalHandReached => panic!("the reserved final Hand is out of reach here"),
    }
}

#[test]
fn hand_two_doubles_hand_one() {
    let mut state = HordeManager::new(4);
    let hand_two_count = run_full_reload(&mut state, 100);
    assert_eq!(hand_two_count, 8);
    assert_eq!(state.hand_number(), 2);
}

#[test]
fn hand_three_doubles_hand_two() {
    let mut state = HordeManager::new(4);
    run_full_reload(&mut state, 100);
    let hand_three_count = run_full_reload(&mut state, 100);
    assert_eq!(hand_three_count, 16);
    assert_eq!(state.hand_number(), 3);
}

#[test]
fn doubling_never_exceeds_the_level_cap() {
    let mut state = HordeManager::new(23);
    assert_eq!(run_full_reload(&mut state, 50), 46);
    assert_eq!(run_full_reload(&mut state, 50), 50);
    assert_eq!(run_full_reload(&mut state, 50), 50);
}

#[test]
fn cap_is_never_allowed_to_exceed_the_global_hard_cap_in_this_test_matrix() {
    let mut state = HordeManager::new(23);
    for _ in 0..5 {
        let count = run_full_reload(&mut state, GLOBAL_HARD_DEALER_CAP);
        assert!(count <= GLOBAL_HARD_DEALER_CAP);
    }
}

#[test]
fn zero_initial_dealers_does_not_get_stuck_doubling_zero() {
    let mut state = HordeManager::new(0);
    assert_eq!(run_full_reload(&mut state, 10), 2);
}

#[test]
fn active_with_dealers_alive_never_enters_reloading() {
    let mut state = HordeManager::new(4);
    for _ in 0..120 {
        assert_eq!(state.tick(secs(0.016), 3, 100, usize::MAX), None);
    }
    assert_eq!(state.phase(), HandPhase::Active);
}

#[test]
fn last_dealer_death_immediately_starts_reloading() {
    let mut state = HordeManager::new(4);
    state.tick(secs(0.016), 0, 100, usize::MAX);
    assert!(matches!(state.phase(), HandPhase::Reloading { .. }));
}

#[test]
fn invalid_delta_time_does_not_advance_the_phase() {
    let mut state = HordeManager::new(4);
    state.tick(secs(0.016), 0, 100, usize::MAX);
    let phase_before = state.phase();
    state.tick(secs(0.0), 0, 100, usize::MAX);
    state.tick(secs(-1.0), 0, 100, usize::MAX);
    state.tick(secs(f32::NAN), 0, 100, usize::MAX);
    assert_eq!(state.phase(), phase_before);
}

#[test]
fn hud_sequence_matches_the_documented_timeline() {
    let mut state = HordeManager::new(4);
    state.tick(secs(0.016), 0, 100, usize::MAX);
    state.tick(secs(0.5 - 0.016), 0, 100, usize::MAX);
    assert_eq!(state.hud_message(), HandHudMessage::HouseIsReloading);
    state.tick(secs(1.0), 0, 100, usize::MAX);
    assert_eq!(state.hud_message(), HandHudMessage::NextHandIn(3));
    state.tick(secs(1.0), 0, 100, usize::MAX);
    assert_eq!(state.hud_message(), HandHudMessage::NextHandIn(2));
    state.tick(secs(1.0), 0, 100, usize::MAX);
    assert_eq!(state.hud_message(), HandHudMessage::NextHandIn(1));
    let spawned = state.tick(secs(1.0), 0, 100, usize::MAX);
    assert!(spawned.is_some());
    assert_eq!(state.hud_message(), HandHudMessage::HandBanner(state.hand_number()));
}

#[test]
fn banner_disappears_after_its_duration() {
    let mut state = HordeManager::new(4);
    run_full_reload(&mut state, 100);
    assert_eq!(state.hud_message(), HandHudMessage::HandBanner(state.hand_number()));
    state.tick(secs(1.5), 5, 100, usize::MAX);
    assert_eq!(state.hud_message(), HandHudMessage::NoMessage);
}

#[test]
fn no_message_while_actively_fighting_without_a_fresh_banner() {
    let state = HordeManager::new(4);
    assert_eq!(state.hud_message(), HandHudMessage::NoMessage);
}

fn run_full_reload_with_final(state: &mut HordeManager, level_cap: usize, final_hand_number: usize) -> HandOutcome {
    assert_eq!(state.tick(secs(0.016), 0, level_cap, final_hand_number), None);
    let mut elapsed = 0.0;
    while elapsed < 4.5 {
        if let Some(outcome) = state.tick(secs(0.05), 0, level_cap, final_hand_number) {
            return outcome;
        }
        elapsed += 0.05;
    }
    panic!("the Hand must spawn (or be reserved) within about 4 s")
}

#[test]
fn reaching_the_configured_final_hand_number_reports_final_hand_reached_instead_of_a_spawn() {
    let mut state = HordeManager::new(4);
    assert_eq!(run_full_reload_with_final(&mut state, 100, 4), HandOutcome::Spawn { dealer_count: 8 });
    assert_eq!(run_full_reload_with_final(&mut state, 100, 4), HandOutcome::Spawn { dealer_count: 16 });
    assert_eq!(run_full_reload_with_final(&mut state, 100, 4), HandOutcome::FinalHandReached);
    assert_eq!(state.hand_number(), 4);
}

#[test]
fn reaching_the_final_hand_shows_no_hand_banner() {
    let mut state = HordeManager::new(2);
    assert_eq!(run_full_reload_with_final(&mut state, 100, 2), HandOutcome::FinalHandReached);
    assert_eq!(state.hud_message(), HandHudMessage::NoMessage);
    for _ in 0..10 {
        assert_eq!(state.tick(secs(0.1), 1, 100, 2), None);
        assert_eq!(state.hud_message(), HandHudMessage::NoMessage);
    }
}

#[test]
fn the_procedural_level_reserves_hand_two_as_final_with_no_doubling_at_all() {
    let mut state = HordeManager::new(45);
    assert_eq!(run_full_reload_with_final(&mut state, 100, 2), HandOutcome::FinalHandReached);
    assert_eq!(state.hand_number(), 2);
}

#[test]
fn house_of_cards_gets_one_extra_normal_hand_before_the_final_hand() {
    let mut state = HordeManager::new(4);
    assert_eq!(run_full_reload_with_final(&mut state, 100, 5), HandOutcome::Spawn { dealer_count: 8 });
    assert_eq!(run_full_reload_with_final(&mut state, 100, 5), HandOutcome::Spawn { dealer_count: 16 });
    assert_eq!(run_full_reload_with_final(&mut state, 100, 5), HandOutcome::Spawn { dealer_count: 32 });
    assert_eq!(run_full_reload_with_final(&mut state, 100, 5), HandOutcome::FinalHandReached);
}

#[test]
fn fixed_range_first_hand_dealer_count_always_returns_the_same_value() {
    for seed in [0, 1, 12345, u64::MAX] {
        assert_eq!(first_hand_dealer_count(seed, 4, 4), 4);
    }
}

#[test]
fn ranged_first_hand_dealer_count_stays_within_bounds() {
    for seed in 0..50u64 {
        let count = first_hand_dealer_count(seed, 40, 50);
        assert!((40..=50).contains(&count), "seed {seed}: {count}");
    }
}

#[test]
fn ranged_first_hand_dealer_count_is_deterministic_per_seed() {
    assert_eq!(first_hand_dealer_count(777, 40, 50), first_hand_dealer_count(777, 40, 50));
}

#[test]
fn ranged_first_hand_dealer_count_can_differ_across_seeds() {
    let counts: HashSet<usize> = (0..50u64).map(|seed| first_hand_dealer_count(seed, 40, 50)).collect();
    assert!(counts.len() > 1);
}

fn test_level() -> Level {
    let map = "\
###############
#p            #
#             #
#             #
#             #
#             #
#             #
#            g#
###############
";
    Level::from_cells(map.lines().map(|line| line.chars().collect()).collect())
        .expect("the test map must be valid")
}

#[test]
fn same_session_seed_and_hand_number_produce_the_same_spawn_layout() {
    let level = test_level();
    let occupied = [(1, 1)];
    let seed_a = spawn_seed_for_hand(12345, 2);
    let seed_b = spawn_seed_for_hand(12345, 2);
    assert_eq!(seed_a, seed_b);
    let a = spawn_cells(&level, 72.0, 72.0, 0.0, &occupied, 4, false, seed_a);
    let b = spawn_cells(&level, 72.0, 72.0, 0.0, &occupied, 4, false, seed_b);
    assert_eq!(a, b);
}

#[test]
fn different_hand_numbers_can_produce_different_layouts() {
    assert_ne!(spawn_seed_for_hand(12345, 2), spawn_seed_for_hand(12345, 3));
}

#[test]
fn selected_cells_are_always_walkable_and_never_occupied() {
    let level = test_level();
    let occupied = [(4, 5), (4, 6), (4, 7)];
    let cells = spawn_cells(&level, 4.5 * 48.0, 4.5 * 48.0, 0.0, &occupied, 10, false, 999);
    assert!(!cells.is_empty());
    for &(row, column) in &cells {
        assert!(level.is_walkable(row, column));
        assert!(!occupied.contains(&(row, column)));
    }
}

#[test]
fn selected_cells_respect_the_safe_distance_when_the_map_allows_it() {
    let level = test_level();
    let player_cell = (4, 6);
    let x = player_cell.1 as f32 * 48.0 + 24.0;
    let y = player_cell.0 as f32 * 48.0 + 24.0;
    let distances = DistanceField::from_level(&level, player_cell);
    let cells = spawn_cells(&level, x, y, 0.0, &[], 3, false, 1);
    assert!(!cells.is_empty());
    for &(row, column) in &cells {
        let distance = distances.distance_at(row, column).expect("a chosen cell must be reachable");
        assert!(distance >= SAFE_RESPAWN_DISTANCE_CELLS);
    }
}

#[test]
fn never_returns_more_cells_than_requested() {
    let level = test_level();
    let cells = spawn_cells(&level, 4.5 * 48.0, 4.5 * 48.0, 0.0, &[], 3, false, 7);
    assert!(cells.len() <= 3);
}

#[test]
fn cluster_mode_never_exceeds_the_requested_count() {
    let level = test_level();
    let cells = spawn_cells(&level, 4.5 * 48.0, 4.5 * 48.0, 0.0, &[], 12, true, 42);
    assert!(cells.len() <= 12);
    let unique: HashSet<(usize, usize)> = cells.iter().copied().collect();
    assert_eq!(unique.len(), cells.len());
}

#[test]
fn no_extra_pickups_when_ammo_is_already_sufficient() {
    assert_eq!(extra_ammo_pickups_needed(4, 12), 0);
}

#[test]
fn extra_pickups_scale_with_the_ammo_deficit() {
    assert_eq!(extra_ammo_pickups_needed(8, 12), 2);
}

#[test]
fn extra_pickups_are_capped_even_for_enormous_deficits() {
    assert_eq!(extra_ammo_pickups_needed(1000, 0), 6);
}

#[test]
fn diverse_ammo_splits_between_easy_and_hard_access() {
    let level = test_level();
    let player_cell = (4, 6);
    let x = player_cell.1 as f32 * 48.0 + 24.0;
    let y = player_cell.0 as f32 * 48.0 + 24.0;
    let facing = 0.0;
    let distances = DistanceField::from_level(&level, player_cell);
    let cells = split_cells(&level, x, y, facing, &[], 2, 2, 7);
    assert_eq!(cells.len(), 4);
    for &cell in &cells {
        assert_ne!(cell, player_cell);
        assert!(distances.distance_at(cell.0, cell.1).is_some());
    }
    for &(row, column) in cells.iter().take(2) {
        assert!(!is_immediately_visible(row, column, x, y, facing), "easy ammunition must not lie ahead of the player");
        let d = distances.distance_at(row, column).unwrap();
        assert!((1..=9).contains(&d), "easy too far: {d}");
    }
    for &(row, column) in cells.iter().skip(2) {
        let d = distances.distance_at(row, column).unwrap();
        assert!(d >= 6, "hard too close: {d}");
    }
    assert_eq!(split_cells(&level, x, y, facing, &[], 2, 2, 7), cells);
}

#[test]
fn split_ammo_cells_are_spread_apart_not_clustered() {
    let level = test_level();
    let player_cell = (4, 6);
    let x = player_cell.1 as f32 * 48.0 + 24.0;
    let y = player_cell.0 as f32 * 48.0 + 24.0;
    let cells = split_cells(&level, x, y, 0.0, &[], 2, 2, 3);
    assert_eq!(cells.len(), 4);
    for i in 0..cells.len() {
        for j in (i + 1)..cells.len() {
            assert!(
                cell_chebyshev(cells[i], cells[j]) >= MIN_AMMO_SEPARATION_CELLS,
                "pickups {:?} and {:?} too close",
                cells[i],
                cells[j]
            );
        }
    }
}

#[test]
fn split_ammo_cells_never_reuse_an_occupied_or_player_cell() {
    let level = test_level();
    let player_cell = (3, 3);
    let x = player_cell.1 as f32 * 48.0 + 24.0;
    let y = player_cell.0 as f32 * 48.0 + 24.0;
    let occupied = [(3, 4), (4, 3), (5, 5)];
    let cells = split_cells(&level, x, y, 0.0, &occupied, 1, 2, 1);
    assert_eq!(cells.len(), 3);
    for cell in &cells {
        assert!(!occupied.contains(cell));
        assert_ne!(*cell, player_cell);
    }
    let unique: HashSet<(usize, usize)> = cells.iter().copied().collect();
    assert_eq!(unique.len(), cells.len(), "no duplicates");
}

#[test]
fn emergency_ammo_cells_land_within_the_preferred_distance_band_when_the_map_allows_it() {
    let level = test_level();
    let player_cell = (4, 6);
    let x = player_cell.1 as f32 * 48.0 + 24.0;
    let y = player_cell.0 as f32 * 48.0 + 24.0;
    let distances = DistanceField::from_level(&level, player_cell);
    let cells = emergency_cells(&level, x, y, &[], 2, 99);
    assert_eq!(cells.len(), 2);
    for &(row, column) in &cells {
        let distance = distances.distance_at(row, column).expect("a chosen cell must be reachable");
        assert!((1..=3).contains(&distance), "distance outside the band: {distance}");
    }
}

#[test]
fn emergency_ammo_cells_are_never_the_players_own_cell() {
    let level = test_level();
    let player_cell = (4, 6);
    let x = player_cell.1 as f32 * 48.0 + 24.0;
    let y = player_cell.0 as f32 * 48.0 + 24.0;
    let cells = emergency_cells(&level, x, y, &[], 2, 5);
    assert!(!cells.contains(&player_cell));
}

#[test]
fn emergency_ammo_cells_never_land_on_occupied_positions() {
    let level = test_level();
    let occupied = [(4, 5), (4, 6), (4, 7), (3, 6)];
    let cells = emergency_cells(&level, 4.5 * 48.0, 4.5 * 48.0, &occupied, 2, 12);
    for cell in &cells {
        assert!(!occupied.contains(cell));
    }
}

#[test]
fn emergency_ammo_never_returns_more_cells_than_requested() {
    let level = test_level();
    let cells = emergency_cells(&level, 4.5 * 48.0, 4.5 * 48.0, &[], 2, 3);
    assert!(cells.len() <= 2);
    let unique: HashSet<(usize, usize)> = cells.iter().copied().collect();
    assert_eq!(unique.len(), cells.len());
}

#[test]
fn emergency_ammo_seed_is_deterministic_per_spawn_index() {
    let a = spawn_seed_for_emergency_ammo(777, 0);
    let b = spawn_seed_for_emergency_ammo(777, 0);
    let c = spawn_seed_for_emergency_ammo(777, 1);
    assert_eq!(a, b);
    assert_ne!(a, c);
}

#[test]
fn emergency_ammo_seed_never_collides_with_dealer_spawn_seed() {
    assert_ne!(spawn_seed_for_hand(777, 1), spawn_seed_for_emergency_ammo(777, 1));
}

#[test]
fn health_pickup_target_is_always_between_three_and_five() {
    for hand_number in 2..30 {
        let target = health_pickup_target_for_hand(12345, hand_number);
        assert!((3..=5).contains(&target), "hand {hand_number}: target {target} outside 3..=5");
    }
}

#[test]
fn health_pickup_target_is_deterministic_per_seed_and_hand() {
    assert_eq!(health_pickup_target_for_hand(555, 2), health_pickup_target_for_hand(555, 2));
}

#[test]
fn health_pickup_target_can_differ_across_hands() {
    let targets: HashSet<usize> = (2..20).map(|hand_number| health_pickup_target_for_hand(555, hand_number)).collect();
    assert!(targets.len() > 1);
}

#[test]
fn health_spawn_seed_never_collides_with_dealer_or_emergency_ammo_seed() {
    let dealer_seed = spawn_seed_for_hand(42, 2);
    let emergency_seed = spawn_seed_for_emergency_ammo(42, 2);
    let health_seed = spawn_seed_for_health_replenish(42, 2);
    assert_ne!(dealer_seed, health_seed);
    assert_ne!(emergency_seed, health_seed);
}

#[test]
fn royal_flush_seed_is_deterministic_per_session_seed() {
    assert_eq!(spawn_seed_for_royal_flush(777), spawn_seed_for_royal_flush(777));
    assert_ne!(spawn_seed_for_royal_flush(777), spawn_seed_for_royal_flush(778));
}

#[test]
fn royal_flush_seed_never_collides_with_the_other_resource_seeds() {
    let royal = spawn_seed_for_royal_flush(42);
    assert_ne!(royal, spawn_seed_for_hand(42, 1));
    assert_ne!(royal, spawn_seed_for_hand(42, 2));
    assert_ne!(royal, spawn_seed_for_emergency_ammo(42, 0));
    assert_ne!(royal, spawn_seed_for_health_replenish(42, 2));
}

#[test]
fn king_seed_is_deterministic_and_isolated_from_every_other_resource() {
    assert_eq!(spawn_seed_for_king(42), spawn_seed_for_king(42));
    assert_ne!(spawn_seed_for_king(42), spawn_seed_for_king(43));
    let king = spawn_seed_for_king(42);
    assert_ne!(king, spawn_seed_for_royal_flush(42));
    assert_ne!(king, spawn_seed_for_hand(42, 1));
    assert_ne!(king, spawn_seed_for_hand(42, 4));
    assert_ne!(king, spawn_seed_for_emergency_ammo(42, 0));
    assert_ne!(king, spawn_seed_for_health_replenish(42, 4));
}

#[test]
fn clustered_spawns_never_take_the_goal_the_player_or_an_occupied_cell() {
    let corridor: Vec<Vec<char>> = vec!["#p  g#".chars().collect()];
    let level = Level::from_cells(corridor).expect("valid corridor");
    let (x, y) = (1.5 * 48.0, 0.5 * 48.0);
    for seed in 0..64 {
        let cells = spawn_cells(&level, x, y, 0.0, &[(0, 4)], 2, true, seed);
        assert!(cells.len() <= 2);
        for &cell in &cells {
            assert_ne!(cell, (0, 4), "the goal is occupied");
            assert_ne!(cell, (0, 1), "the player's cell");
        }
    }
    let open = level_from_rows(&[
        "##########",
        "#p       #",
        "#        #",
        "#        #",
        "#       g#",
        "##########",
    ]);
    let occupied = [(4, 8), (2, 5), (3, 5)];
    for seed in 0..32 {
        let cells = spawn_cells(&open, 1.5 * 48.0, 1.5 * 48.0, 0.0, &occupied, 8, true, seed);
        let field = red_black_maze::distance::DistanceField::from_level(&open, (1, 1));
        for &cell in &cells {
            assert!(!occupied.contains(&cell));
            assert_ne!(cell, (1, 1));
            assert!(field.distance_at(cell.0, cell.1).is_some());
        }
    }
}

fn level_from_rows(rows: &[&str]) -> Level {
    Level::from_cells(rows.iter().map(|row| row.chars().collect()).collect()).expect("valid maze")
}

#[test]
fn every_placement_takes_every_reachable_free_cell_when_the_maze_offers_fewer_than_requested() {
    // Four reachable free cells; the pocket at the far right is walkable
    // but cannot be reached.
    let maze = level_from_rows(&["#########", "#p   g# #", "#########"]);
    let reachable: HashSet<(usize, usize)> = [(1, 2), (1, 3), (1, 4), (1, 5)].into_iter().collect();
    let (x, y) = (72.0, 72.0);
    let plain = spawn_cells(&maze, x, y, 0.0, &[], 10, false, 3);
    let grouped = spawn_cells(&maze, x, y, 0.0, &[], 10, true, 3);
    let emergency = emergency_cells(&maze, x, y, &[], 10, 3);
    let encircling = select_encircling_cells(&maze, (1, 1), &Vec::new(), 10, 3);
    for cells in [plain, grouped, emergency, encircling] {
        assert_eq!(cells.len(), 4);
        let set: HashSet<(usize, usize)> = cells.iter().copied().collect();
        assert_eq!(set, reachable);
    }
}

#[test]
fn clusters_skip_repeated_pool_cells_and_fill_up_to_the_distinct_ones() {
    let maze = level_from_rows(&["#########", "#p      #", "#       #", "#      g#", "#########"]);
    let pool = vec![(2, 3), (2, 3), (2, 4), (2, 4), (3, 3), (2, 3)];
    let mut rng = Rng::new(5);
    let cells = select_with_clusters(&maze, &pool, 3, &mut rng);
    assert_eq!(cells.len(), 3);
    assert_eq!(cells[0], (2, 3));
    let set: HashSet<(usize, usize)> = cells.iter().copied().collect();
    assert_eq!(set.len(), 3);
    let mut rng = Rng::new(5);
    let all = select_with_clusters(&maze, &pool, 10, &mut rng);
    let set: HashSet<(usize, usize)> = all.iter().copied().collect();
    assert_eq!(all.len(), 3, "as many cells as the pool has distinct ones");
    assert_eq!(set, [(2, 3), (2, 4), (3, 3)].into_iter().collect());
}
