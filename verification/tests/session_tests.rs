use std::collections::HashSet;
use std::f32::consts::PI;

use red_black_maze::hand::{health_pickup_target_for_hand, HandOutcome, EMERGENCY_AMMO_PICKUP_COUNT};
use red_black_maze::health::PlayerHealth;
use red_black_maze::level::Level;
use red_black_maze::mode::GameMode;
use red_black_maze::audio::EntityDamageOutcome;
use red_black_maze::session::{
    damage_enemy, EnemyKind, EnemyRecord, GameSession, HordeHandConfig, PickupSlot, ViewMode, HEALTH_PICKUP_AMOUNT,
    TORCH_FRAME_COUNT, TORCH_FRAME_DURATION_US,
};
use red_black_maze::weapon::{WeaponState, WeaponTier};

const BLOCK_SIZE: f32 = 48.0;

/// Collection radius of a pickup, in world pixels.
const PICKUP_RADIUS: f32 = 19.2;

const NO_HORDE_CONFIG: HordeHandConfig = HordeHandConfig { first_hand_min: 0, first_hand_max: 0, final_hand_number: 0 };

fn secs(s: f32) -> u64 {
    if s.is_finite() && s > 0.0 {
        (s as f64 * 1_000_000.0).round() as u64
    } else {
        0
    }
}

fn cell_center(cell: (usize, usize)) -> (f32, f32) {
    (cell.1 as f32 * BLOCK_SIZE + BLOCK_SIZE / 2.0, cell.0 as f32 * BLOCK_SIZE + BLOCK_SIZE / 2.0)
}

fn world_to_cell(x: f32, y: f32) -> (usize, usize) {
    ((y / BLOCK_SIZE).floor().max(0.0) as usize, (x / BLOCK_SIZE).floor().max(0.0) as usize)
}

fn level_from(map: &str) -> Level {
    Level::from_cells(map.lines().map(|line| line.chars().collect()).collect()).expect("the test map must be valid")
}

/// A game being played: the session, the player's position and facing
/// in world space, and the enemies, as the application keeps them.
struct Run {
    session: GameSession,
    x: f32,
    y: f32,
    facing: f32,
    enemies: Vec<EnemyRecord>,
}

impl Run {
    fn start(map: &str, mode: GameMode, config: HordeHandConfig) -> Run {
        let level = level_from(map);
        let spawn = level.player_spawn();
        let (x, y) = cell_center(spawn);
        let facing = PI / 3.0;
        let visible = view_cone(&level, x, y, facing);
        let (session, dealers) = GameSession::new(level, spawn, &visible, 0, mode, config, false);
        let enemies = dealers.iter().map(|&cell| EnemyRecord { kind: EnemyKind::Dealer, cell, alive: true }).collect();
        Run { session, x, y, facing, enemies }
    }

    fn player_cell(&self) -> (usize, usize) {
        world_to_cell(self.x, self.y)
    }

    fn move_to(&mut self, x: f32, y: f32) {
        self.x = x;
        self.y = y;
    }

    fn in_range(&self, pickups: &[PickupSlot]) -> Vec<bool> {
        pickups
            .iter()
            .map(|pickup| {
                let (px, py) = cell_center(pickup.cell);
                let dx = self.x - px;
                let dy = self.y - py;
                dx * dx + dy * dy <= PICKUP_RADIUS * PICKUP_RADIUS
            })
            .collect()
    }

    fn collect_ammo(&mut self) -> usize {
        let flags = self.in_range(self.session.ammo_pickups());
        self.session.collect_nearby_ammo_pickups(&flags)
    }

    fn collect_health(&mut self) -> usize {
        let flags = self.in_range(self.session.health_pickups());
        self.session.collect_nearby_health_pickups(&flags)
    }

    fn collect_royal_flush(&mut self) -> bool {
        let near = match self.session.royal_flush_pickup() {
            Some(pickup) => self.in_range(&[pickup])[0],
            None => false,
        };
        self.session.collect_nearby_royal_flush_pickup(near)
    }

    /// Damage dealt to the player by accepted Dealer attacks (ten each).
    fn hurt(&mut self, amount: i32) -> i32 {
        let attacks = vec![EnemyKind::Dealer; (amount / 10) as usize];
        self.session.process_dealer_attacks(&attacks)
    }

    fn kill_all(&mut self) {
        for enemy in &mut self.enemies {
            enemy.alive = false;
        }
    }

    fn update_hand(&mut self, dt: f32, cap: usize, clusters: bool, final_hand_number: usize) -> Option<HandOutcome> {
        let visible = view_cone(self.session.level(), self.x, self.y, self.facing);
        let step = self.session.update_hand_state(
            secs(dt),
            self.player_cell(),
            &visible,
            &self.enemies,
            cap,
            clusters,
            final_hand_number,
        );
        for &cell in &step.dealer_cells {
            self.enemies.push(EnemyRecord { kind: EnemyKind::Dealer, cell, alive: true });
        }
        if let Some(cell) = step.king_cell {
            self.enemies.push(EnemyRecord { kind: EnemyKind::King, cell, alive: true });
        }
        step.outcome
    }

    fn ensure_emergency_ammo(&mut self) -> usize {
        let cell = self.player_cell();
        self.session.ensure_emergency_ammo(cell, &self.enemies)
    }

    fn alive(&self) -> usize {
        self.enemies.iter().filter(|e| e.alive).count()
    }

    fn drain_all_ammo(&mut self) {
        loop {
            if self.session.weapon_ammo() > 0 {
                assert!(self.session.try_fire_weapon());
                self.session.update_weapon(secs(1.0));
            } else if self.session.weapon_reserve_ammo() > 0 {
                assert!(self.session.try_start_weapon_reload());
                self.session.update_weapon(secs(1.0));
            } else {
                break;
            }
        }
        assert_eq!(self.session.weapon_ammo(), 0);
        assert_eq!(self.session.weapon_reserve_ammo(), 0);
    }

    fn active_ammo(&self) -> usize {
        self.session.ammo_pickups().iter().filter(|p| p.active).count()
    }
}

fn view_cone(level: &Level, x: f32, y: f32, facing: f32) -> Vec<Vec<bool>> {
    let mut flags = Vec::new();
    for row in 0..level.height() {
        let mut line = Vec::new();
        for column in 0..level.width() {
            let (cx, cy) = cell_center((row, column));
            let dx = cx - x;
            let dy = cy - y;
            let distance = dx.hypot(dy);
            let visible = distance <= BLOCK_SIZE * 6.0
                && distance > f32::EPSILON
                && (dx / distance) * facing.cos() + (dy / distance) * facing.sin() >= 0.5;
            line.push(visible);
        }
        flags.push(line);
    }
    flags
}

const ONE_DEALER_ONE_PICKUP: &str = "\
#########
#p a    #
#  e    #
#      g#
#########
";

const ONE_AMMO: &str = "\
#######
#p a g#
#######
";

const THREE_AMMO: &str = "\
###########
#p a a a g#
###########
";

const ONE_HEALTH: &str = "\
#######
#p h g#
#######
";

const ONE_DEALER: &str = "\
#######
#p    #
#  e  #
#    g#
#######
";

const OPEN_ROOM_ONE_DEALER: &str = "\
###################
#p                #
#                 #
#        e        #
#                 #
#                g#
###################
";

const HORDE_ROOM: &str = "\
###########
#p        #
#    e    #
#         #
#        g#
###########
";

fn horde_config(final_hand_number: usize) -> HordeHandConfig {
    HordeHandConfig { first_hand_min: 1, first_hand_max: 1, final_hand_number }
}

#[test]
fn a_freshly_constructed_session_always_starts_with_full_health() {
    let mut dirty = Run::start(ONE_DEALER_ONE_PICKUP, GameMode::Portal, NO_HORDE_CONFIG);
    dirty.hurt(1000);
    assert_eq!(dirty.session.player_health(), 0);
    let clean = Run::start(ONE_DEALER_ONE_PICKUP, GameMode::Portal, NO_HORDE_CONFIG);
    assert_eq!(clean.session.player_health(), 100);
}

#[test]
fn a_freshly_constructed_session_always_starts_with_full_weapon_ammo_and_idle_state() {
    let mut dirty = Run::start(ONE_DEALER_ONE_PICKUP, GameMode::Portal, NO_HORDE_CONFIG);
    dirty.session.try_fire_weapon();
    dirty.session.update_weapon(secs(0.2));
    dirty.session.try_start_weapon_reload();
    dirty.session.update_weapon(secs(0.1));
    assert_eq!(dirty.session.weapon_ammo(), 5);
    assert!(dirty.session.weapon_reload_progress().is_some());
    let clean = Run::start(ONE_DEALER_ONE_PICKUP, GameMode::Portal, NO_HORDE_CONFIG);
    assert_eq!(clean.session.weapon_ammo(), 6);
    assert_eq!(clean.session.weapon_reserve_ammo(), 18);
    assert_eq!(clean.session.weapon_state(), WeaponState::Idle);
    assert_eq!(clean.session.weapon_reload_progress(), None);
}

#[test]
fn a_freshly_constructed_session_always_starts_with_all_ammo_pickups_active() {
    let mut dirty = Run::start(ONE_DEALER_ONE_PICKUP, GameMode::Portal, NO_HORDE_CONFIG);
    dirty.move_to(168.0, 72.0);
    dirty.collect_ammo();
    assert!(!dirty.session.ammo_pickups()[0].active);
    let clean = Run::start(ONE_DEALER_ONE_PICKUP, GameMode::Portal, NO_HORDE_CONFIG);
    assert!(clean.session.ammo_pickups()[0].active);
}

#[test]
fn a_freshly_constructed_session_always_starts_with_an_inactive_hit_flash() {
    let mut dirty = Run::start(ONE_DEALER_ONE_PICKUP, GameMode::Portal, NO_HORDE_CONFIG);
    dirty.session.process_dealer_attacks(&vec![EnemyKind::Dealer]);
    assert!(dirty.session.is_hit_flash_active());
    let clean = Run::start(ONE_DEALER_ONE_PICKUP, GameMode::Portal, NO_HORDE_CONFIG);
    assert!(!clean.session.is_hit_flash_active());
}

#[test]
fn collecting_within_radius_consumes_the_pickup_and_increases_reserve() {
    let mut run = Run::start(ONE_AMMO, GameMode::Portal, NO_HORDE_CONFIG);
    assert_eq!(run.session.weapon_reserve_ammo(), 18);
    assert!(run.session.ammo_pickups()[0].active);
    run.move_to(168.0, 72.0);
    run.collect_ammo();
    assert_eq!(run.session.weapon_reserve_ammo(), 24);
    assert!(!run.session.ammo_pickups()[0].active);
}

#[test]
fn collecting_outside_radius_leaves_the_pickup_and_reserve_unchanged() {
    let mut run = Run::start(ONE_AMMO, GameMode::Portal, NO_HORDE_CONFIG);
    run.collect_ammo();
    assert_eq!(run.session.weapon_reserve_ammo(), 18);
    assert!(run.session.ammo_pickups()[0].active);
}

#[test]
fn full_reserve_retains_the_pickup_instead_of_consuming_it() {
    let mut run = Run::start(THREE_AMMO, GameMode::Portal, NO_HORDE_CONFIG);
    run.move_to(168.0, 72.0);
    run.collect_ammo();
    assert_eq!(run.session.weapon_reserve_ammo(), 24);
    assert!(!run.session.ammo_pickups()[0].active);
    run.move_to(264.0, 72.0);
    run.collect_ammo();
    assert_eq!(run.session.weapon_reserve_ammo(), 30);
    assert!(!run.session.ammo_pickups()[1].active);
    run.move_to(360.0, 72.0);
    run.collect_ammo();
    assert_eq!(run.session.weapon_reserve_ammo(), 30);
    assert!(run.session.ammo_pickups()[2].active);
}

#[test]
fn a_successful_collection_reports_exactly_one_event() {
    let mut run = Run::start(ONE_AMMO, GameMode::Portal, NO_HORDE_CONFIG);
    run.move_to(168.0, 72.0);
    assert_eq!(run.collect_ammo(), 1);
}

#[test]
fn being_out_of_range_reports_zero_events() {
    let mut run = Run::start(ONE_AMMO, GameMode::Portal, NO_HORDE_CONFIG);
    assert_eq!(run.collect_ammo(), 0);
}

#[test]
fn a_full_reserve_reports_zero_events_even_though_the_pickup_stays_active() {
    let mut run = Run::start(THREE_AMMO, GameMode::Portal, NO_HORDE_CONFIG);
    run.move_to(168.0, 72.0);
    run.collect_ammo();
    run.move_to(264.0, 72.0);
    run.collect_ammo();
    run.move_to(360.0, 72.0);
    assert_eq!(run.collect_ammo(), 0);
    assert!(run.session.ammo_pickups()[2].active);
}

#[test]
fn the_same_pickup_never_reports_a_second_event() {
    let mut run = Run::start(ONE_AMMO, GameMode::Portal, NO_HORDE_CONFIG);
    run.move_to(168.0, 72.0);
    assert_eq!(run.collect_ammo(), 1);
    for _ in 0..5 {
        assert_eq!(run.collect_ammo(), 0);
    }
}

#[test]
fn multiple_pickups_collected_the_same_frame_report_one_event_each() {
    let mut run = Run::start(THREE_AMMO, GameMode::Portal, NO_HORDE_CONFIG);
    run.move_to(168.0, 72.0);
    assert_eq!(run.collect_ammo(), 1);
    run.move_to(264.0, 72.0);
    assert_eq!(run.collect_ammo(), 1);
}

#[test]
fn retry_style_fresh_session_can_collect_its_pickups_again() {
    let mut dirty = Run::start(ONE_AMMO, GameMode::Portal, NO_HORDE_CONFIG);
    dirty.move_to(168.0, 72.0);
    assert_eq!(dirty.collect_ammo(), 1);
    assert!(!dirty.session.ammo_pickups()[0].active);
    let mut fresh = Run::start(ONE_AMMO, GameMode::Portal, NO_HORDE_CONFIG);
    assert!(fresh.session.ammo_pickups()[0].active);
    fresh.move_to(168.0, 72.0);
    assert_eq!(fresh.collect_ammo(), 1);
    assert!(!fresh.session.ammo_pickups()[0].active);
}

#[test]
fn not_calling_collect_nearby_ammo_pickups_is_how_pause_freezes_collection() {
    let mut run = Run::start(ONE_AMMO, GameMode::Portal, NO_HORDE_CONFIG);
    run.move_to(168.0, 72.0);
    let reserve_before = run.session.weapon_reserve_ammo();
    assert_eq!(run.session.weapon_reserve_ammo(), reserve_before);
    assert!(run.session.ammo_pickups()[0].active);
    assert_eq!(run.collect_ammo(), 1);
    assert!(!run.session.ammo_pickups()[0].active);
}

#[test]
fn collection_never_refills_the_magazine() {
    let mut run = Run::start(ONE_AMMO, GameMode::Portal, NO_HORDE_CONFIG);
    assert!(run.session.try_fire_weapon());
    let magazine_before = run.session.weapon_ammo();
    assert_eq!(magazine_before, 5);
    run.move_to(168.0, 72.0);
    run.collect_ammo();
    assert_eq!(run.session.weapon_ammo(), magazine_before);
    assert_eq!(run.session.weapon_reserve_ammo(), 24);
}

#[test]
fn healing_from_sixty_reaches_eighty() {
    let mut run = Run::start(ONE_HEALTH, GameMode::Portal, NO_HORDE_CONFIG);
    run.hurt(40);
    assert_eq!(run.session.player_health(), 60);
    run.move_to(168.0, 72.0);
    run.collect_health();
    assert_eq!(run.session.player_health(), 80);
    assert!(!run.session.health_pickups()[0].active);
}

#[test]
fn healing_from_eighty_reaches_one_hundred() {
    let mut run = Run::start(ONE_HEALTH, GameMode::Portal, NO_HORDE_CONFIG);
    run.hurt(20);
    assert_eq!(run.session.player_health(), 80);
    run.move_to(168.0, 72.0);
    run.collect_health();
    assert_eq!(run.session.player_health(), 100);
}

#[test]
fn healing_from_ninety_clamps_at_one_hundred_and_still_consumes_the_pickup() {
    let mut run = Run::start(ONE_HEALTH, GameMode::Portal, NO_HORDE_CONFIG);
    run.hurt(10);
    assert_eq!(run.session.player_health(), 90);
    run.move_to(168.0, 72.0);
    assert_eq!(run.collect_health(), 1);
    assert_eq!(run.session.player_health(), 100);
    assert!(!run.session.health_pickups()[0].active);
}

#[test]
fn full_health_leaves_the_pickup_untouched_and_reports_no_event() {
    let mut run = Run::start(ONE_HEALTH, GameMode::Portal, NO_HORDE_CONFIG);
    assert_eq!(run.session.player_health(), 100);
    run.move_to(168.0, 72.0);
    assert_eq!(run.collect_health(), 0);
    assert_eq!(run.session.player_health(), 100);
    assert!(run.session.health_pickups()[0].active);
}

#[test]
fn being_out_of_range_leaves_the_health_pickup_and_health_unchanged() {
    let mut run = Run::start(ONE_HEALTH, GameMode::Portal, NO_HORDE_CONFIG);
    run.hurt(40);
    assert_eq!(run.collect_health(), 0);
    assert_eq!(run.session.player_health(), 60);
    assert!(run.session.health_pickups()[0].active);
}

#[test]
fn a_successful_heal_reports_exactly_one_event() {
    let mut run = Run::start(ONE_HEALTH, GameMode::Portal, NO_HORDE_CONFIG);
    run.hurt(40);
    run.move_to(168.0, 72.0);
    assert_eq!(run.collect_health(), 1);
}

#[test]
fn the_same_health_pickup_never_reports_a_second_event() {
    let mut run = Run::start(ONE_HEALTH, GameMode::Portal, NO_HORDE_CONFIG);
    run.hurt(40);
    run.move_to(168.0, 72.0);
    assert_eq!(run.collect_health(), 1);
    for _ in 0..5 {
        assert_eq!(run.collect_health(), 0);
    }
}

#[test]
fn not_calling_collect_nearby_health_pickups_is_how_pause_freezes_healing() {
    let mut run = Run::start(ONE_HEALTH, GameMode::Portal, NO_HORDE_CONFIG);
    run.hurt(40);
    run.move_to(168.0, 72.0);
    let health_before = run.session.player_health();
    assert_eq!(run.session.player_health(), health_before);
    assert!(run.session.health_pickups()[0].active);
    assert_eq!(run.collect_health(), 1);
    assert_eq!(run.session.player_health(), 80);
}

#[test]
fn a_freshly_constructed_session_restores_a_consumed_health_pickup() {
    let mut dirty = Run::start(ONE_HEALTH, GameMode::Portal, NO_HORDE_CONFIG);
    dirty.hurt(40);
    dirty.move_to(168.0, 72.0);
    assert_eq!(dirty.collect_health(), 1);
    assert!(!dirty.session.health_pickups()[0].active);
    let clean = Run::start(ONE_HEALTH, GameMode::Portal, NO_HORDE_CONFIG);
    assert_eq!(clean.session.player_health(), 100);
    assert!(clean.session.health_pickups()[0].active);
}

#[test]
fn a_new_hand_replenishes_health_pickups_up_to_the_deterministic_target() {
    let mut run = Run::start(OPEN_ROOM_ONE_DEALER, GameMode::Portal, NO_HORDE_CONFIG);
    assert_eq!(run.session.health_pickups().len(), 0);
    run.kill_all();
    assert_eq!(run.alive(), 0);
    for _ in 0..200 {
        run.update_hand(0.5, 16, false, usize::MAX);
        if run.session.hand_number() > 1 {
            break;
        }
    }
    assert!(run.session.hand_number() > 1, "the Hand should have advanced in this window");
    let expected_target = health_pickup_target_for_hand(0, run.session.hand_number());
    assert!((3..=5).contains(&expected_target));
    assert_eq!(run.session.health_pickups().len(), expected_target);
    assert!(run.session.health_pickups().iter().all(|pickup| pickup.active));
}

#[test]
fn caso_b_one_bullet_left_in_the_magazine_prevents_emergency_respawn() {
    // A Dealer alive, one ammunition pickup to refill the reserve once.
    let map = "\
###################
#p a              #
#                 #
#        e        #
#                 #
#                g#
###################
";
    let mut run = Run::start(map, GameMode::Portal, NO_HORDE_CONFIG);
    run.drain_all_ammo();
    run.move_to(168.0, 72.0);
    assert_eq!(run.collect_ammo(), 1);
    assert!(run.session.try_start_weapon_reload());
    run.session.update_weapon(secs(1.0));
    assert_eq!(run.session.weapon_ammo(), 6);
    for _ in 0..5 {
        assert!(run.session.try_fire_weapon());
        run.session.update_weapon(secs(1.0));
    }
    assert_eq!(run.session.weapon_ammo(), 1);
    assert_eq!(run.session.weapon_reserve_ammo(), 0);
    assert_eq!(run.ensure_emergency_ammo(), 0);
    assert_eq!(run.active_ammo(), 0);
}

#[test]
fn caso_c_empty_magazine_with_reserve_remaining_prevents_emergency_respawn() {
    let mut run = Run::start(OPEN_ROOM_ONE_DEALER, GameMode::Portal, NO_HORDE_CONFIG);
    for _ in 0..6 {
        assert!(run.session.try_fire_weapon());
        run.session.update_weapon(secs(1.0));
    }
    assert_eq!(run.session.weapon_ammo(), 0);
    assert!(run.session.weapon_reserve_ammo() > 0);
    assert_eq!(run.ensure_emergency_ammo(), 0);
    assert!(run.session.ammo_pickups().is_empty());
}

#[test]
fn caso_d_an_existing_active_ammo_pickup_prevents_emergency_respawn() {
    let map = "\
###################
#p a              #
#                 #
#        e        #
#                 #
#                g#
###################
";
    let mut run = Run::start(map, GameMode::Portal, NO_HORDE_CONFIG);
    run.drain_all_ammo();
    assert_eq!(run.session.ammo_pickups().len(), 1);
    assert!(run.session.ammo_pickups()[0].active);
    assert_eq!(run.ensure_emergency_ammo(), 0);
    assert_eq!(run.session.ammo_pickups().len(), 1);
}

#[test]
fn caso_e_no_dealers_alive_prevents_emergency_respawn() {
    let mut run = Run::start(OPEN_ROOM_ONE_DEALER, GameMode::Portal, NO_HORDE_CONFIG);
    run.drain_all_ammo();
    run.kill_all();
    assert_eq!(run.alive(), 0);
    assert_eq!(run.ensure_emergency_ammo(), 0);
    assert!(run.session.ammo_pickups().is_empty());
}

#[test]
fn a_softlock_spawns_the_emergency_batch_once_and_again_after_it_is_used_up() {
    let mut run = Run::start(OPEN_ROOM_ONE_DEALER, GameMode::Portal, NO_HORDE_CONFIG);
    run.drain_all_ammo();
    assert!(run.session.ammo_pickups().is_empty());
    assert_eq!(run.ensure_emergency_ammo(), EMERGENCY_AMMO_PICKUP_COUNT);
    assert_eq!(run.active_ammo(), EMERGENCY_AMMO_PICKUP_COUNT);
    assert_eq!(run.session.emergency_ammo_spawn_count(), 1);
    // The next frame finds active pickups and adds nothing.
    assert_eq!(run.ensure_emergency_ammo(), 0);
    assert_eq!(run.active_ammo(), EMERGENCY_AMMO_PICKUP_COUNT);
    let player = run.player_cell();
    let dealer = run.enemies[0].cell;
    let goal = run.session.level().goal();
    let cells: HashSet<(usize, usize)> = run.session.ammo_pickups().iter().map(|p| p.cell).collect();
    assert_eq!(cells.len(), EMERGENCY_AMMO_PICKUP_COUNT);
    assert!(!cells.contains(&player) && !cells.contains(&dealer) && !cells.contains(&goal));
    // Collect every emergency pickup, spend it all, and it fires again.
    for index in 0..run.session.ammo_pickups().len() {
        let (x, y) = cell_center(run.session.ammo_pickups()[index].cell);
        run.move_to(x, y);
        run.collect_ammo();
    }
    assert_eq!(run.active_ammo(), 0);
    run.drain_all_ammo();
    assert_eq!(run.ensure_emergency_ammo(), EMERGENCY_AMMO_PICKUP_COUNT);
    assert_eq!(run.session.emergency_ammo_spawn_count(), 2);
}

#[test]
fn not_calling_update_hand_state_is_how_pause_freezes_health_replenish() {
    let mut run = Run::start(OPEN_ROOM_ONE_DEALER, GameMode::Portal, NO_HORDE_CONFIG);
    run.kill_all();
    let health_before = run.session.health_pickups().len();
    assert_eq!(run.session.health_pickups().len(), health_before);
}

#[test]
fn same_hand_seed_produces_the_same_emergency_ammo_and_health_replenish_positions() {
    let build_and_dirty = || {
        let mut run = Run::start(OPEN_ROOM_ONE_DEALER, GameMode::Portal, NO_HORDE_CONFIG);
        run.kill_all();
        for _ in 0..200 {
            run.update_hand(0.5, 16, false, usize::MAX);
            if run.session.hand_number() > 1 {
                break;
            }
        }
        run.drain_all_ammo();
        run.ensure_emergency_ammo();
        run
    };
    let a = build_and_dirty();
    let b = build_and_dirty();
    assert_eq!(a.session.hand_number(), b.session.hand_number());
    let cells = |pickups: &[PickupSlot]| -> Vec<(usize, usize)> { pickups.iter().map(|p| p.cell).collect() };
    assert_eq!(cells(a.session.ammo_pickups()), cells(b.session.ammo_pickups()));
    assert_eq!(cells(a.session.health_pickups()), cells(b.session.health_pickups()));
}

#[test]
fn retry_style_fresh_session_discards_dynamically_generated_resources() {
    let mut dirty = Run::start(OPEN_ROOM_ONE_DEALER, GameMode::Portal, NO_HORDE_CONFIG);
    dirty.kill_all();
    for _ in 0..200 {
        dirty.update_hand(0.5, 16, false, usize::MAX);
        if dirty.session.hand_number() > 1 {
            break;
        }
    }
    dirty.drain_all_ammo();
    dirty.ensure_emergency_ammo();
    assert!(dirty.session.hand_number() > 1);
    assert!(!dirty.session.ammo_pickups().is_empty());
    assert!(!dirty.session.health_pickups().is_empty());
    let clean = Run::start(OPEN_ROOM_ONE_DEALER, GameMode::Portal, NO_HORDE_CONFIG);
    assert_eq!(clean.session.hand_number(), 1);
    assert!(clean.session.ammo_pickups().is_empty());
    assert!(clean.session.health_pickups().is_empty());
}

#[test]
fn new_session_from_the_same_level_restores_all_pickups() {
    let mut first = Run::start(ONE_AMMO, GameMode::Portal, NO_HORDE_CONFIG);
    first.move_to(168.0, 72.0);
    first.collect_ammo();
    assert!(!first.session.ammo_pickups()[0].active);
    let second = Run::start(ONE_AMMO, GameMode::Portal, NO_HORDE_CONFIG);
    assert!(second.session.ammo_pickups()[0].active);
    assert_eq!(second.session.weapon_reserve_ammo(), 18);
}

#[test]
fn try_start_weapon_reload_forwards_a_valid_acceptance() {
    let mut run = Run::start(ONE_DEALER, GameMode::Portal, NO_HORDE_CONFIG);
    assert!(run.session.try_fire_weapon());
    run.session.update_weapon(secs(1.0));
    assert!(run.session.try_start_weapon_reload());
    assert_eq!(run.session.weapon_state(), WeaponState::Reload);
}

#[test]
fn try_start_weapon_reload_forwards_rejection_on_full_magazine() {
    let mut run = Run::start(ONE_DEALER, GameMode::Portal, NO_HORDE_CONFIG);
    assert!(!run.session.try_start_weapon_reload());
    assert_eq!(run.session.weapon_state(), WeaponState::Idle);
}

#[test]
fn try_start_weapon_reload_forwards_rejection_while_already_reloading() {
    let mut run = Run::start(ONE_DEALER, GameMode::Portal, NO_HORDE_CONFIG);
    assert!(run.session.try_fire_weapon());
    run.session.update_weapon(secs(1.0));
    assert!(run.session.try_start_weapon_reload());
    assert!(!run.session.try_start_weapon_reload());
}

#[test]
fn weapon_reload_progress_forwards_none_and_some_correctly() {
    let mut run = Run::start(ONE_DEALER, GameMode::Portal, NO_HORDE_CONFIG);
    assert_eq!(run.session.weapon_reload_progress(), None);
    assert!(run.session.try_fire_weapon());
    run.session.update_weapon(secs(1.0));
    assert!(run.session.try_start_weapon_reload());
    assert!(run.session.weapon_reload_progress().is_some());
}

#[test]
fn a_session_reports_exactly_the_mode_it_was_constructed_with() {
    let map = "\
#######
#p   g#
#######
";
    assert_eq!(Run::start(map, GameMode::Portal, NO_HORDE_CONFIG).session.mode(), GameMode::Portal);
    assert_eq!(Run::start(map, GameMode::Horde, NO_HORDE_CONFIG).session.mode(), GameMode::Horde);
}

const MAP_WITH_ONE_DEALER: &str = "\
#########
#p      #
#  e    #
#      g#
#########
";

#[test]
fn portal_mode_never_tops_up_the_map_native_enemy_count() {
    let config = HordeHandConfig { first_hand_min: 4, first_hand_max: 4, final_hand_number: 4 };
    let run = Run::start(MAP_WITH_ONE_DEALER, GameMode::Portal, config);
    assert_eq!(run.enemies.len(), 1);
}

#[test]
fn horde_mode_tops_up_entities_to_reach_the_configured_first_hand_target() {
    let config = HordeHandConfig { first_hand_min: 4, first_hand_max: 4, final_hand_number: 4 };
    let run = Run::start(MAP_WITH_ONE_DEALER, GameMode::Horde, config);
    assert_eq!(run.enemies.len(), 4);
    assert_eq!(run.session.hand_number(), 1);
}

#[test]
fn horde_mode_never_removes_entities_when_the_map_already_meets_the_target() {
    let map = "\
#########
#p      #
#  e    #
#  e    #
#  e    #
#  e   g#
#########
";
    let config = HordeHandConfig { first_hand_min: 4, first_hand_max: 4, final_hand_number: 5 };
    let run = Run::start(map, GameMode::Horde, config);
    assert_eq!(run.enemies.len(), 4);
}

#[test]
fn horde_mode_top_up_never_lands_on_the_player_goal_or_an_existing_dealer() {
    let config = HordeHandConfig { first_hand_min: 6, first_hand_max: 6, final_hand_number: 4 };
    let run = Run::start(MAP_WITH_ONE_DEALER, GameMode::Horde, config);
    let player_cell = run.player_cell();
    let goal_cell = run.session.level().goal();
    assert_eq!(run.enemies.len(), 6);
    let mut cells: Vec<(usize, usize)> = run.enemies.iter().map(|e| e.cell).collect();
    cells.sort();
    cells.dedup();
    assert_eq!(cells.len(), 6);
    assert!(!cells.contains(&player_cell));
    assert!(!cells.contains(&goal_cell));
}

#[test]
fn intermission_contract_spawns_exactly_once_and_never_double_spawns() {
    let mut run = Run::start(ONE_DEALER, GameMode::Portal, NO_HORDE_CONFIG);
    run.kill_all();
    assert_eq!(run.alive(), 0);
    let mut spawn_events = 0;
    for _ in 0..300 {
        match run.update_hand(0.05, 16, false, usize::MAX) {
            Some(HandOutcome::Spawn { dealer_count }) => {
                spawn_events += 1;
                assert_eq!(dealer_count, 2, "HAND I had one Dealer; HAND II doubles it to two");
            }
            Some(HandOutcome::FinalHandReached) => panic!("usize::MAX as final Hand is never reached here"),
            None => {}
        }
    }
    assert_eq!(spawn_events, 1, "the next Hand spawns exactly once");
    assert_eq!(run.session.hand_number(), 2);
    assert_eq!(run.alive(), 2);
}

#[test]
fn intermission_contract_reports_final_hand_reached_through_the_same_return_value() {
    let mut run = Run::start(ONE_DEALER, GameMode::Portal, NO_HORDE_CONFIG);
    run.kill_all();
    let mut outcome_at_transition = None;
    for _ in 0..300 {
        if let Some(outcome) = run.update_hand(0.05, 16, false, 2) {
            outcome_at_transition = Some(outcome);
            break;
        }
    }
    assert_eq!(outcome_at_transition, Some(HandOutcome::FinalHandReached));
    assert!(run.session.king_spawned());
    let living: Vec<EnemyKind> = run.enemies.iter().filter(|e| e.alive).map(|e| e.kind).collect();
    assert_eq!(living, vec![EnemyKind::King]);
    assert_eq!(run.alive(), 1);
}

fn run_intermission_until_final_hand(run: &mut Run) {
    run.kill_all();
    for _ in 0..300 {
        if let Some(HandOutcome::FinalHandReached) = run.update_hand(0.05, 16, false, 2) {
            return;
        }
    }
    panic!("the intermission must reach the reserved final Hand within the window");
}

#[test]
fn final_hand_intermission_spawns_recovery_supplies() {
    let mut run = Run::start(ONE_DEALER, GameMode::Portal, NO_HORDE_CONFIG);
    assert_eq!(run.session.ammo_pickups().len(), 0);
    assert_eq!(run.session.health_pickups().len(), 0);
    run_intermission_until_final_hand(&mut run);
    assert!(!run.session.ammo_pickups().is_empty(), "the intermission before the final Hand drops ammunition");
    assert!(!run.session.health_pickups().is_empty(), "the intermission before the final Hand drops health");
}

#[test]
fn final_hand_supplies_never_land_on_the_player_goal_or_each_other() {
    let mut run = Run::start(ONE_DEALER, GameMode::Portal, NO_HORDE_CONFIG);
    let player_cell = run.player_cell();
    let goal_cell = run.session.level().goal();
    run_intermission_until_final_hand(&mut run);
    let mut cells: Vec<(usize, usize)> = run.session.ammo_pickups().iter().map(|p| p.cell).collect();
    for pickup in run.session.health_pickups() {
        cells.push(pickup.cell);
    }
    let unique: HashSet<(usize, usize)> = cells.iter().copied().collect();
    assert_eq!(unique.len(), cells.len(), "two supplies share a cell");
    assert!(!cells.contains(&player_cell));
    assert!(!cells.contains(&goal_cell));
}

#[test]
fn final_hand_supplies_are_deterministic_for_the_same_hand_seed() {
    let mut first = Run::start(ONE_DEALER, GameMode::Portal, NO_HORDE_CONFIG);
    let mut second = Run::start(ONE_DEALER, GameMode::Portal, NO_HORDE_CONFIG);
    run_intermission_until_final_hand(&mut first);
    run_intermission_until_final_hand(&mut second);
    let cells = |run: &Run| -> (Vec<(usize, usize)>, Vec<(usize, usize)>) {
        (
            run.session.ammo_pickups().iter().map(|p| p.cell).collect(),
            run.session.health_pickups().iter().map(|p| p.cell).collect(),
        )
    };
    assert_eq!(cells(&first), cells(&second));
}

#[test]
fn a_fresh_session_has_no_royal_flush_and_a_standard_weapon() {
    let run = Run::start(HORDE_ROOM, GameMode::Horde, horde_config(4));
    assert!(run.session.royal_flush_pickup().is_none());
    assert!(!run.session.royal_flush_spawned());
    assert_eq!(run.session.weapon_tier(), WeaponTier::Standard);
}

#[test]
fn spawning_the_royal_flush_places_an_active_pickup_once() {
    let mut run = Run::start(HORDE_ROOM, GameMode::Horde, horde_config(4));
    run.session.spawn_royal_flush_pickup((1, 3));
    let pickup = run.session.royal_flush_pickup().expect("it must have been placed");
    assert!(pickup.active);
    assert!(run.session.royal_flush_spawned());
    run.session.spawn_royal_flush_pickup((2, 1));
    assert_eq!(run.session.royal_flush_pickup().unwrap().cell, pickup.cell);
}

#[test]
fn portal_mode_never_spawns_the_royal_flush() {
    let mut run = Run::start(ONE_DEALER, GameMode::Portal, NO_HORDE_CONFIG);
    run.session.spawn_royal_flush_pickup((1, 3));
    assert!(run.session.royal_flush_pickup().is_none());
    assert!(!run.session.royal_flush_spawned());
}

#[test]
fn collecting_the_royal_flush_upgrades_the_single_equipped_weapon() {
    let mut run = Run::start(HORDE_ROOM, GameMode::Horde, horde_config(4));
    run.session.spawn_royal_flush_pickup((1, 3));
    let magazine_before = run.session.weapon_ammo();
    let reserve_before = run.session.weapon_reserve_ammo();
    run.move_to(4.5 * BLOCK_SIZE, 2.5 * BLOCK_SIZE);
    assert!(!run.collect_royal_flush());
    assert!(run.session.royal_flush_pickup().unwrap().active);
    assert_eq!(run.session.weapon_tier(), WeaponTier::Standard);
    let (x, y) = cell_center(run.session.royal_flush_pickup().unwrap().cell);
    run.move_to(x, y);
    assert!(run.collect_royal_flush());
    assert_eq!(run.session.weapon_tier(), WeaponTier::RoyalFlush);
    assert!(!run.session.royal_flush_pickup().unwrap().active);
    assert_eq!(run.session.weapon_ammo(), magazine_before);
    assert_eq!(run.session.weapon_reserve_ammo(), reserve_before);
    for _ in 0..5 {
        assert!(!run.collect_royal_flush());
    }
}

#[test]
fn the_royal_flush_persists_until_collected() {
    let mut run = Run::start(HORDE_ROOM, GameMode::Horde, horde_config(4));
    run.session.spawn_royal_flush_pickup((1, 3));
    run.move_to(1.5 * BLOCK_SIZE, 1.5 * BLOCK_SIZE);
    for _ in 0..600 {
        assert!(!run.collect_royal_flush());
    }
    assert!(run.session.royal_flush_pickup().unwrap().active);
    assert_eq!(run.session.weapon_tier(), WeaponTier::Standard);
}

#[test]
fn collecting_with_no_royal_flush_present_is_a_no_op() {
    let mut run = Run::start(HORDE_ROOM, GameMode::Horde, horde_config(4));
    assert!(!run.collect_royal_flush());
    assert_eq!(run.session.weapon_tier(), WeaponTier::Standard);
}

fn drive_horde_to_final_hand(run: &mut Run, final_hand_number: usize) -> bool {
    for _ in 0..4000 {
        run.kill_all();
        if let Some(HandOutcome::FinalHandReached) = run.update_hand(0.1, 52, false, final_hand_number) {
            return true;
        }
    }
    false
}

#[test]
fn true_maze_style_config_exposes_the_royal_flush_from_the_start_of_the_run() {
    let run = Run::start(HORDE_ROOM, GameMode::Horde, horde_config(2));
    let pickup = run.session.royal_flush_pickup().expect("The Royal Flush exists from the start on this level");
    assert!(pickup.active);
    assert!(run.session.royal_flush_spawned());
}

#[test]
fn static_level_config_does_not_expose_the_royal_flush_until_the_penultimate_hand() {
    let mut run = Run::start(HORDE_ROOM, GameMode::Horde, horde_config(4));
    assert!(run.session.royal_flush_pickup().is_none());
    run.kill_all();
    for _ in 0..300 {
        if run.session.hand_number() == 2 {
            break;
        }
        run.update_hand(0.1, 52, false, 4);
    }
    assert_eq!(run.session.hand_number(), 2);
    assert!(run.session.royal_flush_pickup().is_none(), "not before the penultimate Hand");
    for _ in 0..300 {
        if run.session.hand_number() == 3 {
            break;
        }
        run.kill_all();
        run.update_hand(0.1, 52, false, 4);
    }
    assert_eq!(run.session.hand_number(), 3);
    let pickup = run.session.royal_flush_pickup().expect("it appears when the penultimate Hand starts");
    assert!(pickup.active);
}

#[test]
fn the_royal_flush_spawns_exactly_once_and_not_again_on_the_final_hand() {
    let mut run = Run::start(HORDE_ROOM, GameMode::Horde, horde_config(4));
    assert!(drive_horde_to_final_hand(&mut run, 4));
    assert!(run.session.royal_flush_spawned());
    let cell = run.session.royal_flush_pickup().expect("placed in the penultimate Hand").cell;
    run.session.spawn_royal_flush_pickup((1, 1));
    assert_eq!(run.session.royal_flush_pickup().unwrap().cell, cell);
}

#[test]
fn the_royal_flush_position_is_deterministic_for_the_same_hand_seed() {
    let first = Run::start(HORDE_ROOM, GameMode::Horde, horde_config(2));
    let second = Run::start(HORDE_ROOM, GameMode::Horde, horde_config(2));
    assert_eq!(first.session.royal_flush_pickup().unwrap().cell, second.session.royal_flush_pickup().unwrap().cell);
}

#[test]
fn retry_returns_the_weapon_to_standard_and_clears_the_pickup() {
    let mut run = Run::start(HORDE_ROOM, GameMode::Horde, horde_config(4));
    run.session.spawn_royal_flush_pickup((1, 3));
    let (x, y) = cell_center(run.session.royal_flush_pickup().unwrap().cell);
    run.move_to(x, y);
    assert!(run.collect_royal_flush());
    assert_eq!(run.session.weapon_tier(), WeaponTier::RoyalFlush);
    let fresh = Run::start(HORDE_ROOM, run.session.mode(), horde_config(4));
    assert_eq!(fresh.session.weapon_tier(), WeaponTier::Standard);
    assert!(fresh.session.royal_flush_pickup().is_none());
    assert!(!fresh.session.royal_flush_spawned());
}

#[test]
fn a_new_horde_run_starts_clean_even_after_an_uncollected_spawn() {
    let mut run = Run::start(HORDE_ROOM, GameMode::Horde, horde_config(4));
    run.session.spawn_royal_flush_pickup((1, 3));
    assert!(run.session.royal_flush_spawned());
    let fresh = Run::start(HORDE_ROOM, run.session.mode(), horde_config(4));
    assert!(!fresh.session.royal_flush_spawned());
    assert!(fresh.session.royal_flush_pickup().is_none());
}

#[test]
fn a_portal_run_never_inherits_the_royal_flush_from_a_previous_horde_run() {
    let mut horde = Run::start(HORDE_ROOM, GameMode::Horde, horde_config(4));
    horde.session.spawn_royal_flush_pickup((1, 3));
    let (x, y) = cell_center(horde.session.royal_flush_pickup().unwrap().cell);
    horde.move_to(x, y);
    horde.collect_royal_flush();
    let mut portal = Run::start(HORDE_ROOM, GameMode::Portal, NO_HORDE_CONFIG);
    assert_eq!(portal.session.weapon_tier(), WeaponTier::Standard);
    assert!(portal.session.royal_flush_pickup().is_none());
    portal.session.spawn_royal_flush_pickup((1, 3));
    assert!(portal.session.royal_flush_pickup().is_none());
}

#[test]
fn the_upgrade_survives_a_pause_and_a_hand_transition_within_the_same_run() {
    let mut run = Run::start(HORDE_ROOM, GameMode::Horde, horde_config(4));
    run.session.spawn_royal_flush_pickup((1, 3));
    let (x, y) = cell_center(run.session.royal_flush_pickup().unwrap().cell);
    run.move_to(x, y);
    run.collect_royal_flush();
    assert_eq!(run.session.weapon_tier(), WeaponTier::RoyalFlush);
    run.kill_all();
    for _ in 0..300 {
        run.update_hand(0.1, 52, false, 4);
        if run.session.hand_number() >= 2 {
            break;
        }
    }
    assert!(run.session.hand_number() >= 2);
    assert_eq!(run.session.weapon_tier(), WeaponTier::RoyalFlush);
    assert!(!run.session.royal_flush_pickup().unwrap().active);
}

#[test]
fn the_final_hand_spawns_exactly_one_king_and_no_dealers() {
    let mut run = Run::start(HORDE_ROOM, GameMode::Horde, horde_config(4));
    assert!(!run.session.king_spawned());
    assert!(drive_horde_to_final_hand(&mut run, 4));
    assert!(run.session.king_spawned());
    let living: Vec<EnemyKind> = run.enemies.iter().filter(|e| e.alive).map(|e| e.kind).collect();
    assert_eq!(living, vec![EnemyKind::King], "one King, no Dealer");
}

#[test]
fn entering_the_final_hand_with_the_king_alive_is_not_a_horde_victory() {
    let mut run = Run::start(HORDE_ROOM, GameMode::Horde, horde_config(4));
    drive_horde_to_final_hand(&mut run, 4);
    assert!(!run.session.horde_completed(&run.enemies), "reaching the final Hand is never enough");
    for _ in 0..200 {
        run.update_hand(0.1, 52, false, 4);
        assert!(!run.session.horde_completed(&run.enemies));
    }
}

#[test]
fn horde_victory_requires_actually_defeating_the_king() {
    let mut run = Run::start(HORDE_ROOM, GameMode::Horde, horde_config(4));
    drive_horde_to_final_hand(&mut run, 4);
    assert!(!run.session.horde_completed(&run.enemies));
    let king = run.enemies.iter().position(|e| e.kind == EnemyKind::King && e.alive).expect("the King is alive");
    run.enemies[king].alive = false;
    assert!(run.session.horde_completed(&run.enemies));
}

#[test]
fn the_king_never_respawns_after_being_defeated() {
    let mut run = Run::start(HORDE_ROOM, GameMode::Horde, horde_config(4));
    drive_horde_to_final_hand(&mut run, 4);
    run.kill_all();
    assert!(run.session.horde_completed(&run.enemies));
    for _ in 0..400 {
        run.update_hand(0.1, 52, false, 4);
    }
    let king_count = run.enemies.iter().filter(|e| e.kind == EnemyKind::King).count();
    assert!(king_count <= 1, "never more than one King per run");
    assert!(run.session.horde_completed(&run.enemies));
}

#[test]
fn portal_mode_never_spawns_the_king_and_never_completes_a_horde() {
    let mut portal = Run::start(ONE_DEALER, GameMode::Portal, NO_HORDE_CONFIG);
    assert!(!portal.session.king_spawned());
    assert!(portal.enemies.iter().all(|e| e.kind == EnemyKind::Dealer));
    assert!(!portal.session.horde_completed(&portal.enemies));
    portal.kill_all();
    assert!(!portal.session.horde_completed(&portal.enemies));
}

#[test]
fn true_maze_style_final_hand_also_spawns_the_king() {
    let mut run = Run::start(HORDE_ROOM, GameMode::Horde, horde_config(2));
    assert!(drive_horde_to_final_hand(&mut run, 2));
    assert!(run.session.king_spawned());
    assert!(run.enemies.iter().any(|e| e.kind == EnemyKind::King && e.alive));
}

#[test]
fn not_calling_update_hand_state_freezes_the_intermission_countdown() {
    let mut run = Run::start(ONE_DEALER, GameMode::Portal, NO_HORDE_CONFIG);
    run.kill_all();
    run.update_hand(1.0, 16, false, usize::MAX);
    let hand_number_before = run.session.hand_number();
    let hud_message_before = run.session.hand_hud_message();
    assert_eq!(run.session.hand_number(), hand_number_before);
    assert_eq!(run.session.hand_hud_message(), hud_message_before);
}

#[test]
fn accepted_attacks_add_up_and_the_king_hits_twice_as_hard() {
    let mut run = Run::start(ONE_DEALER, GameMode::Portal, NO_HORDE_CONFIG);
    let total = run.session.process_dealer_attacks(&vec![EnemyKind::Dealer, EnemyKind::King]);
    assert_eq!(total, 30);
    assert_eq!(run.session.player_health(), 70);
    assert!(run.session.king_attacked_this_frame());
    assert!(run.session.is_hit_flash_active());
    let none = run.session.process_dealer_attacks(&Vec::new());
    assert_eq!(none, 0);
    assert!(!run.session.king_attacked_this_frame());
}

#[test]
fn health_already_zero_produces_no_further_feedback() {
    let mut run = Run::start(ONE_DEALER, GameMode::Portal, NO_HORDE_CONFIG);
    assert_eq!(run.hurt(200), 100);
    run.session.update_hit_flash(secs(1.0));
    assert!(!run.session.is_hit_flash_active());
    assert_eq!(run.hurt(10), 0);
    assert!(!run.session.is_hit_flash_active());
}

#[test]
fn hit_flash_timer_progresses_and_expires() {
    let mut run = Run::start(ONE_DEALER, GameMode::Portal, NO_HORDE_CONFIG);
    run.hurt(10);
    assert!(run.session.is_hit_flash_active());
    run.session.update_hit_flash(secs(0.06));
    assert!(run.session.is_hit_flash_active());
    run.session.update_hit_flash(secs(0.07));
    assert!(!run.session.is_hit_flash_active());
}

#[test]
fn new_damage_while_flash_active_restarts_its_duration() {
    let mut run = Run::start(ONE_DEALER, GameMode::Portal, NO_HORDE_CONFIG);
    run.hurt(10);
    run.session.update_hit_flash(secs(0.1));
    run.hurt(10);
    run.session.update_hit_flash(secs(0.1));
    assert!(run.session.is_hit_flash_active());
    run.session.update_hit_flash(secs(0.03));
    assert!(!run.session.is_hit_flash_active());
}

#[test]
fn the_torch_cycles_through_its_frames_and_keeps_leftover_time() {
    let mut run = Run::start(ONE_DEALER, GameMode::Portal, NO_HORDE_CONFIG);
    assert_eq!(run.session.torch_frame_index(), 0);
    run.session.update_torch_animation(TORCH_FRAME_DURATION_US - 1);
    assert_eq!(run.session.torch_frame_index(), 0);
    run.session.update_torch_animation(1);
    assert_eq!(run.session.torch_frame_index(), 1);
    run.session.update_torch_animation(TORCH_FRAME_DURATION_US * (TORCH_FRAME_COUNT as u64) + 50_000);
    assert_eq!(run.session.torch_frame_index(), 1);
    run.session.update_torch_animation(50_000);
    assert_eq!(run.session.torch_frame_index(), 2);
}

#[test]
fn the_view_switches_between_map_and_world() {
    let mut run = Run::start(ONE_DEALER, GameMode::Portal, NO_HORDE_CONFIG);
    assert_eq!(run.session.view_mode(), ViewMode::Map2D);
    run.session.toggle_view_mode();
    assert_eq!(run.session.view_mode(), ViewMode::World3D);
    run.session.toggle_view_mode();
    assert_eq!(run.session.view_mode(), ViewMode::Map2D);
}

#[test]
fn the_shot_damage_follows_the_weapon_tier() {
    let mut run = Run::start(HORDE_ROOM, GameMode::Horde, horde_config(4));
    assert_eq!(run.session.shot_damage(), 50);
    run.session.spawn_royal_flush_pickup((1, 3));
    let (x, y) = cell_center((1, 3));
    run.move_to(x, y);
    assert!(run.collect_royal_flush());
    assert_eq!(run.session.shot_damage(), 100);
}

#[test]
fn two_standard_shots_kill_a_dealer() {
    let first = damage_enemy(EnemyKind::Dealer.max_health(), WeaponTier::Standard.damage());
    assert_eq!(first, (50, EntityDamageOutcome::Hit));
    let second = damage_enemy(first.0, WeaponTier::Standard.damage());
    assert_eq!(second, (0, EntityDamageOutcome::Killed));
}

#[test]
fn the_king_takes_twenty_standard_shots() {
    let mut health = EnemyKind::King.max_health();
    assert_eq!(health, 1000);
    for shot in 1..=20 {
        let (left, outcome) = damage_enemy(health, WeaponTier::Standard.damage());
        if shot < 20 {
            assert_eq!(outcome, EntityDamageOutcome::Hit);
            assert_eq!(left, 1000 - shot * 50);
        } else {
            assert_eq!(outcome, EntityDamageOutcome::Killed);
            assert_eq!(left, 0);
        }
        health = left;
    }
}

#[test]
fn a_dead_enemy_or_a_harmless_shot_changes_nothing() {
    assert_eq!(damage_enemy(0, 50), (0, EntityDamageOutcome::NoDamage));
    assert_eq!(damage_enemy(-5, 50), (-5, EntityDamageOutcome::NoDamage));
    assert_eq!(damage_enemy(80, 0), (80, EntityDamageOutcome::NoDamage));
    assert_eq!(damage_enemy(80, -3), (80, EntityDamageOutcome::NoDamage));
}

#[test]
fn a_royal_flush_shot_kills_a_dealer_at_once() {
    assert_eq!(
        damage_enemy(EnemyKind::Dealer.max_health(), WeaponTier::RoyalFlush.damage()),
        (0, EntityDamageOutcome::Killed)
    );
}

#[test]
fn standard_weapon_needs_two_hits_to_kill_a_dealer() {
    let run = Run::start(HORDE_ROOM, GameMode::Horde, horde_config(4));
    assert_eq!(run.session.weapon_tier(), WeaponTier::Standard);
    let dealer = run.enemies[0];
    assert_eq!(dealer.kind, EnemyKind::Dealer);
    let (health, outcome) = damage_enemy(dealer.kind.max_health(), run.session.shot_damage());
    assert_eq!(outcome, EntityDamageOutcome::Hit);
    let (health, outcome) = damage_enemy(health, run.session.shot_damage());
    assert_eq!(outcome, EntityDamageOutcome::Killed);
    assert_eq!(health, 0);
}

#[test]
fn royal_flush_one_shots_a_dealer_through_the_same_damage_path() {
    let mut run = Run::start(HORDE_ROOM, GameMode::Horde, horde_config(4));
    run.session.spawn_royal_flush_pickup((1, 3));
    let (x, y) = cell_center(run.session.royal_flush_pickup().unwrap().cell);
    run.move_to(x, y);
    assert!(run.collect_royal_flush());
    assert_eq!(run.session.weapon_tier(), WeaponTier::RoyalFlush);
    let dealer = run.enemies[0];
    let (health, outcome) = damage_enemy(dealer.kind.max_health(), run.session.shot_damage());
    assert_eq!(outcome, EntityDamageOutcome::Killed);
    assert_eq!(health, 0);
}

#[test]
fn royal_flush_never_consumes_extra_ammo_to_deal_more_damage() {
    let mut run = Run::start(HORDE_ROOM, GameMode::Horde, horde_config(4));
    run.session.spawn_royal_flush_pickup((1, 3));
    let (x, y) = cell_center(run.session.royal_flush_pickup().unwrap().cell);
    run.move_to(x, y);
    run.collect_royal_flush();
    let magazine_before = run.session.weapon_ammo();
    let reserve_before = run.session.weapon_reserve_ammo();
    let dealer = run.enemies[0];
    damage_enemy(dealer.kind.max_health(), run.session.shot_damage());
    assert_eq!(run.session.weapon_ammo(), magazine_before);
    assert_eq!(run.session.weapon_reserve_ammo(), reserve_before);
}

#[test]
fn a_king_attack_deals_twenty_and_a_dealer_still_deals_ten() {
    let mut run = Run::start(ONE_DEALER, GameMode::Portal, NO_HORDE_CONFIG);
    assert_eq!(run.session.player_health(), 100);
    let damage = run.session.process_dealer_attacks(&vec![EnemyKind::King]);
    assert_eq!(damage, 20, "The King hits for 20");
    assert_eq!(run.session.player_health(), 80);
    assert!(run.session.is_hit_flash_active());
    let mut dealer_run = Run::start(ONE_DEALER, GameMode::Portal, NO_HORDE_CONFIG);
    assert_eq!(dealer_run.session.process_dealer_attacks(&vec![EnemyKind::Dealer]), 10);
}

#[test]
fn a_freshly_constructed_session_dirtied_across_every_subsystem_still_resets_cleanly() {
    let mut dirty = Run::start(ONE_DEALER_ONE_PICKUP, GameMode::Portal, NO_HORDE_CONFIG);
    dirty.move_to(168.0, 72.0);
    dirty.collect_ammo();
    dirty.session.try_fire_weapon();
    dirty.session.update_weapon(secs(0.2));
    dirty.session.try_start_weapon_reload();
    let dealer = dirty.enemies[0];
    let (dealer_health, dealer_outcome) = damage_enemy(dealer.kind.max_health(), dirty.session.shot_damage());
    dirty.session.process_dealer_attacks(&vec![EnemyKind::Dealer]);
    dirty.hurt(1000);

    assert_eq!(dirty.session.player_health(), 0);
    assert!(!dirty.session.ammo_pickups()[0].active);
    assert_ne!(dirty.session.weapon_ammo(), 6);
    assert_eq!(dealer_outcome, EntityDamageOutcome::Hit);
    assert!(dealer_health < EnemyKind::Dealer.max_health());

    let clean = Run::start(ONE_DEALER_ONE_PICKUP, GameMode::Portal, NO_HORDE_CONFIG);
    assert_eq!(clean.session.player_health(), 100);
    assert_eq!(clean.session.weapon_ammo(), 6);
    assert_eq!(clean.session.weapon_reserve_ammo(), 18);
    assert_eq!(clean.session.weapon_state(), WeaponState::Idle);
    assert_eq!(clean.session.weapon_reload_progress(), None);
    assert_eq!(clean.enemies.len(), 1);
    assert!(clean.enemies[0].alive);
    assert_eq!(clean.enemies[0].kind.max_health(), 100);
    assert!(clean.session.ammo_pickups()[0].active);
    assert!(!clean.session.is_hit_flash_active());
}

#[test]
fn a_dynamically_added_pickup_uses_the_exact_same_collection_event() {
    // One map pickup; the emergency respawn adds more at run time, and
    // those are collected through the same call.
    let map = "\
###################
#p a              #
#                 #
#        e        #
#                 #
#                g#
###################
";
    let mut run = Run::start(map, GameMode::Portal, NO_HORDE_CONFIG);
    run.move_to(168.0, 72.0);
    assert_eq!(run.collect_ammo(), 1);
    run.drain_all_ammo();
    assert_eq!(run.ensure_emergency_ammo(), EMERGENCY_AMMO_PICKUP_COUNT);
    assert_eq!(run.session.ammo_pickups().len(), 1 + EMERGENCY_AMMO_PICKUP_COUNT);
    let (x, y) = cell_center(run.session.ammo_pickups()[1].cell);
    run.move_to(x, y);
    assert_eq!(run.collect_ammo(), 1);
    assert!(!run.session.ammo_pickups()[1].active);
}

#[test]
fn healing_from_ninety_nine_clamps_at_one_hundred() {
    // The session only takes damage in attack-sized steps, so the
    // player's health record takes the single point directly and then
    // the pickup's heal.
    let mut player = PlayerHealth::new();
    player.apply_damage(1);
    assert_eq!(player.health(), 99);
    player.heal(HEALTH_PICKUP_AMOUNT);
    assert_eq!(player.health(), 100);

    let mut run = Run::start(ONE_HEALTH, GameMode::Portal, NO_HORDE_CONFIG);
    run.hurt(10);
    run.move_to(168.0, 72.0);
    run.collect_health();
    assert_eq!(run.session.player_health(), 100);
}

#[test]
fn health_never_exceeds_the_maximum_no_matter_how_many_pickups_are_collected() {
    let mut player = PlayerHealth::new();
    player.apply_damage(5);
    assert_eq!(player.health(), 95);
    for _ in 0..3 {
        player.heal(HEALTH_PICKUP_AMOUNT);
    }
    assert_eq!(player.health(), 100);

    let map = "\
###########
#p h h h g#
###########
";
    let mut run = Run::start(map, GameMode::Portal, NO_HORDE_CONFIG);
    run.hurt(10);
    assert_eq!(run.session.player_health(), 90);
    for column in [3usize, 5, 7] {
        run.move_to(column as f32 * 48.0 + 24.0, 72.0);
        run.collect_health();
    }
    assert_eq!(run.session.player_health(), 100);
    assert!(run.session.player_health() <= 100);
}

#[test]
fn caso_a_softlock_condition_spawns_two_emergency_pickups() {
    // The emergency batch holds `EMERGENCY_AMMO_PICKUP_COUNT` pickups:
    // four, as that constant documents, though this case is named for
    // two.
    let mut run = Run::start(OPEN_ROOM_ONE_DEALER, GameMode::Portal, NO_HORDE_CONFIG);
    assert_eq!(run.alive(), 1);
    run.drain_all_ammo();
    assert!(run.session.ammo_pickups().is_empty());
    let spawned = run.ensure_emergency_ammo();
    assert_eq!(spawned, EMERGENCY_AMMO_PICKUP_COUNT);
    assert_eq!(spawned, 4);
    assert_eq!(run.active_ammo(), EMERGENCY_AMMO_PICKUP_COUNT);
}

#[test]
fn caso_f_a_second_frame_right_after_spawning_generates_nothing_more() {
    let mut run = Run::start(OPEN_ROOM_ONE_DEALER, GameMode::Portal, NO_HORDE_CONFIG);
    run.drain_all_ammo();
    assert_eq!(run.ensure_emergency_ammo(), EMERGENCY_AMMO_PICKUP_COUNT);
    assert_eq!(run.ensure_emergency_ammo(), 0);
    assert_eq!(run.active_ammo(), EMERGENCY_AMMO_PICKUP_COUNT);
}

#[test]
fn caso_g_a_fresh_softlock_after_consuming_the_emergency_pickups_spawns_again() {
    let mut run = Run::start(OPEN_ROOM_ONE_DEALER, GameMode::Portal, NO_HORDE_CONFIG);
    run.drain_all_ammo();
    assert_eq!(run.ensure_emergency_ammo(), EMERGENCY_AMMO_PICKUP_COUNT);
    for index in 0..run.session.ammo_pickups().len() {
        let (x, y) = cell_center(run.session.ammo_pickups()[index].cell);
        run.move_to(x, y);
        run.collect_ammo();
    }
    assert!(run.session.ammo_pickups().iter().all(|pickup| !pickup.active));
    run.drain_all_ammo();
    assert_eq!(run.ensure_emergency_ammo(), EMERGENCY_AMMO_PICKUP_COUNT);
}

#[test]
fn emergency_ammo_positions_are_valid_and_never_overlap_other_resources() {
    let map = "\
###################
#p a  h           #
#                 #
#        e        #
#                 #
#                g#
###################
";
    let mut run = Run::start(map, GameMode::Portal, NO_HORDE_CONFIG);
    let (x, y) = cell_center(run.session.ammo_pickups()[0].cell);
    run.move_to(x, y);
    run.collect_ammo();
    run.drain_all_ammo();
    assert_eq!(run.ensure_emergency_ammo(), EMERGENCY_AMMO_PICKUP_COUNT);

    let dealer_cell = run.enemies[0].cell;
    let health_cell = run.session.health_pickups()[0].cell;
    let goal_cell = run.session.level().goal();
    let player_cell = run.player_cell();
    for pickup in run.session.ammo_pickups().iter().filter(|p| p.active) {
        assert_ne!(pickup.cell, dealer_cell);
        assert_ne!(pickup.cell, health_cell);
        assert_ne!(pickup.cell, player_cell);
        assert_ne!(pickup.cell, goal_cell);
        assert!(run.session.level().is_walkable(pickup.cell.0, pickup.cell.1));
    }
}

#[test]
fn not_calling_ensure_emergency_ammo_is_how_pause_freezes_it() {
    let mut run = Run::start(OPEN_ROOM_ONE_DEALER, GameMode::Portal, NO_HORDE_CONFIG);
    run.drain_all_ammo();
    assert!(run.session.ammo_pickups().is_empty());
    assert_eq!(run.ensure_emergency_ammo(), EMERGENCY_AMMO_PICKUP_COUNT);
}

#[test]
fn full_royal_flush_progression_from_spawn_to_retry() {
    let mut run = Run::start(HORDE_ROOM, GameMode::Horde, horde_config(4));
    assert!(run.session.royal_flush_pickup().is_none());
    assert_eq!(run.session.weapon_tier(), WeaponTier::Standard);

    for _ in 0..600 {
        if run.session.hand_number() == 3 {
            break;
        }
        run.kill_all();
        run.update_hand(0.1, 52, false, 4);
    }
    assert_eq!(run.session.hand_number(), 3);
    let pickup = run.session.royal_flush_pickup().expect("it appears in the penultimate Hand");
    assert!(pickup.active);

    run.move_to(1.5 * BLOCK_SIZE, 1.5 * BLOCK_SIZE);
    for _ in 0..120 {
        assert!(!run.collect_royal_flush());
    }
    assert!(run.session.royal_flush_pickup().unwrap().active);

    let magazine_before = run.session.weapon_ammo();
    let (x, y) = cell_center(pickup.cell);
    run.move_to(x, y);
    assert!(run.collect_royal_flush());
    assert_eq!(run.session.weapon_tier(), WeaponTier::RoyalFlush);
    assert_eq!(run.session.weapon_ammo(), magazine_before);

    if let Some(enemy) = run.enemies.iter().find(|e| e.alive) {
        let (_, outcome) = damage_enemy(enemy.kind.max_health(), run.session.shot_damage());
        assert_eq!(outcome, EntityDamageOutcome::Killed);
    }

    assert!(drive_horde_to_final_hand(&mut run, 4));
    assert!(run.session.royal_flush_spawned());
    assert!(!run.session.royal_flush_pickup().unwrap().active);
    assert_eq!(run.session.weapon_tier(), WeaponTier::RoyalFlush);

    let fresh = Run::start(HORDE_ROOM, run.session.mode(), horde_config(4));
    assert_eq!(fresh.session.weapon_tier(), WeaponTier::Standard);
    assert!(fresh.session.royal_flush_pickup().is_none());
    assert!(!fresh.session.royal_flush_spawned());
}
