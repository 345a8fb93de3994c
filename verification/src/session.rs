//! The state of the game being played, as far as the rules decide it:
//! the maze, the weapon, the player's health, the ammunition and health
//! pickups, The Royal Flush, the hit flash and torch timers, and the
//! Dealer Hands progression with its supplies and The King's arrival.
//!
//! The enemies themselves move and attack in continuous world space,
//! which the application runs; each frame it tells the session what it
//! needs of them as plain values (`EnemyRecord`), and the session tells
//! it where new enemies appear (`HandStep`). Likewise the application
//! decides, from world positions, which pickups the player is close
//! enough to collect. Times are microseconds of game time.

use vstd::prelude::*;

use crate::audio::EntityDamageOutcome;
use crate::grid::Cell;
use crate::health::{PlayerHealth, PLAYER_MAX_HEALTH};
use crate::level::{Level, ENEMY_TILE, AMMO_TILE, HEALTH_TILE, tiles_where};
use crate::mode::GameMode;
use crate::placement::{
    select_spawn_cells, spec_spawn_cells, deep_flags, concat_cells, select_emergency_ammo_cells, emergency_choice, spec_emergency_cells, lemma_spawn_cells_are_free,
    all_walkable, band_pool, free_cell,
};
use crate::weapon::{Weapon, WeaponState, WeaponTier, WeaponView, MAGAZINE_CAPACITY, INITIAL_RESERVE_AMMO};
use crate::hand::{
    HandHudMessage, HandOutcome, HordeManager, tick_result, first_hand_dealer_count,
    spec_first_hand_dealer_count, spawn_seed_for_hand, spec_hand_seed, spawn_seed_for_royal_flush,
    spawn_seed_for_king, spawn_seed_for_health_replenish, spawn_seed_for_emergency_ammo,
    spec_resource_seed, ROYAL_FLUSH_SEED_DISCRIMINATOR, KING_SEED_DISCRIMINATOR,
    HEALTH_SPAWN_SEED_DISCRIMINATOR, EMERGENCY_AMMO_SEED_DISCRIMINATOR, extra_ammo_pickups_needed,
    spec_extra_ammo_pickups_needed, health_pickup_target_for_hand, spec_health_pickup_target,
    spec_hud_message, EMERGENCY_AMMO_PICKUP_COUNT, GLOBAL_HARD_DEALER_CAP,
};

verus! {

/// Reserve ammunition given by each ammunition pickup.
pub const AMMO_PICKUP_AMOUNT: u32 = 6;

/// Health restored by each health pickup.
pub const HEALTH_PICKUP_AMOUNT: i32 = 20;

/// Dealers the supplies before the final Hand are sized for.
pub const FINAL_HAND_SUPPLY_DEALER_EQUIVALENT: usize = 10;

/// Damage of an accepted Dealer attack.
pub const DEALER_ATTACK_DAMAGE: i32 = 10;

/// Damage of an accepted attack of The King.
pub const KING_ATTACK_DAMAGE: i32 = 20;

/// Health a Dealer starts with: two shots of the standard weapon.
pub const DEALER_MAX_HEALTH: i32 = 100;

/// Health The King starts with.
pub const KING_MAX_HEALTH: i32 = 1000;

/// Duration of the visual damage flash, in microseconds.
pub const PLAYER_HIT_FLASH_DURATION_US: u64 = 120_000;

/// Duration of one frame of the torch animation, in microseconds.
pub const TORCH_FRAME_DURATION_US: u64 = 100_000;

/// Number of frames of the torch animation.
pub const TORCH_FRAME_COUNT: usize = 4;

/// The two views of the maze.
#[derive(Debug, Clone, Copy, PartialEq, Eq, Structural)]
pub enum ViewMode {
    Map2D,
    World3D,
}

impl ViewMode {
    /// The other view (the `M` key switches between them).
    pub fn toggled(self) -> (other: ViewMode)
        ensures
            other != self,
    {
        match self {
            ViewMode::Map2D => ViewMode::World3D,
            ViewMode::World3D => ViewMode::Map2D,
        }
    }
}

/// Kinds of enemy.
#[derive(Debug, Clone, Copy, PartialEq, Eq, Structural)]
pub enum EnemyKind {
    Dealer,
    King,
}

impl EnemyKind {
    /// Damage of an accepted attack of this kind.
    pub open spec fn spec_attack_damage(self) -> i32 {
        match self {
            EnemyKind::Dealer => DEALER_ATTACK_DAMAGE,
            EnemyKind::King => KING_ATTACK_DAMAGE,
        }
    }

    /// Damage of an accepted attack: The King hits for twice a Dealer.
    pub fn attack_damage(self) -> (damage: i32)
        ensures
            damage == self.spec_attack_damage(),
    {
        match self {
            EnemyKind::Dealer => DEALER_ATTACK_DAMAGE,
            EnemyKind::King => KING_ATTACK_DAMAGE,
        }
    }

    /// Health an enemy of this kind starts with.
    pub open spec fn spec_max_health(self) -> i32 {
        match self {
            EnemyKind::Dealer => DEALER_MAX_HEALTH,
            EnemyKind::King => KING_MAX_HEALTH,
        }
    }

    /// Health an enemy of this kind starts with.
    pub fn max_health(self) -> (health: i32)
        ensures
            health == self.spec_max_health(),
    {
        match self {
            EnemyKind::Dealer => DEALER_MAX_HEALTH,
            EnemyKind::King => KING_MAX_HEALTH,
        }
    }
}

/// An enemy with `health` left takes a shot of `damage`: its health
/// afterwards and what the shot did. A dead enemy, or a shot without
/// damage, changes nothing; a shot at least as strong as the health left
/// kills, leaving zero; any other shot hurts.
pub fn damage_enemy(health: i32, damage: i32) -> (result: (i32, EntityDamageOutcome))
    ensures
        health <= 0 || damage <= 0 ==> result == (health, EntityDamageOutcome::NoDamage),
        health > 0 && damage >= health ==> result == (0i32, EntityDamageOutcome::Killed),
        health > 0 && 0 < damage < health ==> result == ((health - damage) as i32, EntityDamageOutcome::Hit),
{
    if health <= 0 || damage <= 0 {
        (health, EntityDamageOutcome::NoDamage)
    } else if damage >= health {
        (0, EntityDamageOutcome::Killed)
    } else {
        (health - damage, EntityDamageOutcome::Hit)
    }
}

/// What the session needs to know of one enemy in the world.
#[derive(Debug, Clone, Copy)]
pub struct EnemyRecord {
    pub kind: EnemyKind,
    /// The grid cell of its position.
    pub cell: Cell,
    pub alive: bool,
}

/// A pickup lying at the centre of a cell; `active` until collected.
#[derive(Debug, Clone, Copy)]
pub struct PickupSlot {
    pub cell: Cell,
    pub active: bool,
}

/// How a level configures the Horde progression.
#[derive(Debug, Clone, Copy)]
pub struct HordeHandConfig {
    /// Dealers of the first Hand: drawn in `first_hand_min..=first_hand_max`.
    pub first_hand_min: usize,
    pub first_hand_max: usize,
    /// Number of the Hand reserved as the final round (The King's).
    pub final_hand_number: usize,
}

/// The visual damage flash: time left until it stops showing.
pub struct HitFlashState {
    remaining: u64,
}

impl View for HitFlashState {
    type V = u64;

    closed spec fn view(&self) -> u64 {
        self.remaining
    }
}

impl HitFlashState {
    /// No flash.
    pub fn new() -> (flash: Self)
        ensures
            flash@ == 0,
    {
        HitFlashState { remaining: 0 }
    }

    /// Restarts the flash at its full duration; a second hit while it is
    /// showing restarts it rather than extending it.
    pub fn trigger(&mut self)
        ensures
            final(self)@ == PLAYER_HIT_FLASH_DURATION_US,
    {
        self.remaining = PLAYER_HIT_FLASH_DURATION_US;
    }

    /// Runs the flash down by `delta_us` of game time, never below zero.
    pub fn update(&mut self, delta_us: u64)
        ensures
            final(self)@ == if old(self)@ > delta_us { old(self)@ - delta_us } else { 0 },
    {
        self.remaining = if self.remaining > delta_us { self.remaining - delta_us } else { 0 };
    }

    /// Whether the flash is showing.
    pub fn is_active(&self) -> (active: bool)
        ensures
            active == (self@ > 0),
    {
        self.remaining > 0
    }
}

/// The torch animation: the frame shown and the time spent in it.
pub struct TorchAnimationState {
    frame_index: usize,
    elapsed: u64,
}

impl View for TorchAnimationState {
    type V = (usize, u64);

    closed spec fn view(&self) -> (usize, u64) {
        (self.frame_index, self.elapsed)
    }
}

/// The torch animation `(frame, elapsed)` after `dt` more microseconds:
/// every full frame duration advances one frame, cyclically, and the
/// time left over is kept.
pub open spec fn torch_after(torch: (usize, u64), dt: int) -> (usize, u64) {
    let total = torch.1 + dt;
    (
        ((torch.0 + total / (TORCH_FRAME_DURATION_US as int)) % (TORCH_FRAME_COUNT as int)) as usize,
        (total % (TORCH_FRAME_DURATION_US as int)) as u64,
    )
}

impl TorchAnimationState {
    #[verifier::type_invariant]
    spec fn inv(self) -> bool {
        self.frame_index < TORCH_FRAME_COUNT && self.elapsed < TORCH_FRAME_DURATION_US
    }

    /// The first frame, with no time spent in it.
    pub fn new() -> (torch: Self)
        ensures
            torch@ == (0usize, 0u64),
    {
        TorchAnimationState { frame_index: 0, elapsed: 0 }
    }

    /// The frame shown.
    pub fn frame_index(&self) -> (frame: usize)
        ensures
            frame == self@.0,
            frame < TORCH_FRAME_COUNT,
    {
        proof {
            use_type_invariant(self);
        }
        self.frame_index
    }

    /// Advances the animation by `delta_us` of game time (see
    /// `torch_after`); one long step may advance several frames.
    pub fn update(&mut self, delta_us: u64)
        ensures
            final(self)@ == torch_after(old(self)@, delta_us as int),
    {
        proof {
            use_type_invariant(&*self);
        }
        let total: u128 = self.elapsed as u128 + delta_us as u128;
        let frames: u128 = total / (TORCH_FRAME_DURATION_US as u128);
        let step: usize = (frames % (TORCH_FRAME_COUNT as u128)) as usize;
        let left: u64 = (total % (TORCH_FRAME_DURATION_US as u128)) as u64;
        proof {
            assert((self.frame_index + frames) % 4 == (self.frame_index + frames % 4) % 4) by (nonlinear_arith)
                requires
                    frames >= 0,
                    self.frame_index >= 0,
            {
                vstd::arithmetic::div_mod::lemma_add_mod_noop(self.frame_index as int, frames as int, 4);
                vstd::arithmetic::div_mod::lemma_mod_twice(self.frame_index as int, 4);
            }
        }
        *self = TorchAnimationState { frame_index: (self.frame_index + step) % TORCH_FRAME_COUNT, elapsed: left };
    }
}

/// The cells of the enemies.
pub open spec fn enemy_cells(enemies: Seq<EnemyRecord>) -> Seq<Cell> {
    enemies.map_values(|e: EnemyRecord| e.cell)
}

/// The cells of the active pickups, in order.
pub open spec fn active_cells(pickups: Seq<PickupSlot>) -> Seq<Cell>
    decreases pickups.len(),
{
    if pickups.len() == 0 {
        Seq::empty()
    } else if pickups.last().active {
        active_cells(pickups.drop_last()).push(pickups.last().cell)
    } else {
        active_cells(pickups.drop_last())
    }
}

/// Number of enemies alive.
pub open spec fn alive_count(enemies: Seq<EnemyRecord>) -> nat
    decreases enemies.len(),
{
    if enemies.len() == 0 {
        0
    } else {
        alive_count(enemies.drop_last()) + if enemies.last().alive { 1nat } else { 0nat }
    }
}

/// Whether a King is alive among the enemies.
pub open spec fn spec_king_alive(enemies: Seq<EnemyRecord>) -> bool {
    exists|i: int| 0 <= i < enemies.len() && (#[trigger] enemies[i]).kind == EnemyKind::King && enemies[i].alive
}

/// Fresh active pickups at `cells`.
pub open spec fn new_pickups(cells: Seq<Cell>) -> Seq<PickupSlot> {
    cells.map_values(|c: Cell| PickupSlot { cell: c, active: true })
}

/// Appends to `out` the cells of the active pickups.
fn append_active_cells(pickups: &Vec<PickupSlot>, out: &mut Vec<Cell>)
    ensures
        final(out)@ == old(out)@ + active_cells(pickups@),
{
    let ghost start = out@;
    let mut i: usize = 0;
    while i < pickups.len()
        invariant
            i <= pickups@.len(),
            out@ == start + active_cells(pickups@.subrange(0, i as int)),
        decreases pickups@.len() - i,
    {
        proof {
            assert(pickups@.subrange(0, i + 1).drop_last() =~= pickups@.subrange(0, i as int));
        }
        if pickups[i].active {
            out.push(pickups[i].cell);
        }
        i += 1;
    }
    proof {
        assert(pickups@.subrange(0, pickups@.len() as int) =~= pickups@);
    }
}

/// Number of active pickups.
fn count_active(pickups: &Vec<PickupSlot>) -> (count: usize)
    ensures
        count == active_cells(pickups@).len(),
{
    let mut cells: Vec<Cell> = Vec::new();
    append_active_cells(pickups, &mut cells);
    cells.len()
}

/// Number of enemies alive: the only measure of whether a Hand is over
/// (corpses stay in the world for a while and never count).
pub fn alive_enemy_count(enemies: &Vec<EnemyRecord>) -> (count: usize)
    ensures
        count == alive_count(enemies@),
{
    let mut count: usize = 0;
    let mut i: usize = 0;
    while i < enemies.len()
        invariant
            i <= enemies@.len(),
            count == alive_count(enemies@.subrange(0, i as int)),
            count <= i,
        decreases enemies@.len() - i,
    {
        proof {
            assert(enemies@.subrange(0, i + 1).drop_last() =~= enemies@.subrange(0, i as int));
        }
        if enemies[i].alive {
            count += 1;
        }
        i += 1;
    }
    proof {
        assert(enemies@.subrange(0, enemies@.len() as int) =~= enemies@);
    }
    count
}

/// Whether a King is alive among the enemies (a corpse never counts).
pub fn king_alive(enemies: &Vec<EnemyRecord>) -> (alive: bool)
    ensures
        alive == spec_king_alive(enemies@),
{
    let mut i: usize = 0;
    while i < enemies.len()
        invariant
            i <= enemies@.len(),
            forall|j: int| 0 <= j < i ==> !((#[trigger] enemies@[j]).kind == EnemyKind::King && enemies@[j].alive),
        decreases enemies@.len() - i,
    {
        if enemies[i].kind == EnemyKind::King && enemies[i].alive {
            return true;
        }
        i += 1;
    }
    false
}

/// Appends fresh active pickups at `cells`.
fn push_pickups(list: &mut Vec<PickupSlot>, cells: &Vec<Cell>)
    ensures
        final(list)@ == old(list)@ + new_pickups(cells@),
{
    let ghost start = list@;
    let mut i: usize = 0;
    while i < cells.len()
        invariant
            i <= cells@.len(),
            list@ == start + new_pickups(cells@.subrange(0, i as int)),
        decreases cells@.len() - i,
    {
        list.push(PickupSlot { cell: cells[i], active: true });
        proof {
            assert(new_pickups(cells@.subrange(0, i + 1)) =~= new_pickups(cells@.subrange(0, i as int)).push(
                PickupSlot { cell: cells@[i as int], active: true },
            ));
        }
        i += 1;
    }
    proof {
        assert(cells@.subrange(0, cells@.len() as int) =~= cells@);
    }
}

/// The cells where nothing new may be placed: the player's cell, the
/// goal, every enemy (alive or corpse) and every active pickup.
pub open spec fn occupied_cells(
    player_cell: Cell,
    goal: Cell,
    enemies: Seq<Cell>,
    ammo: Seq<PickupSlot>,
    health: Seq<PickupSlot>,
) -> Seq<Cell> {
    seq![player_cell, goal] + enemies + active_cells(ammo) + active_cells(health)
}

/// What a game session holds, as plain values.
pub struct SessionView {
    pub level: Level,
    pub mode: GameMode,
    pub view_mode: ViewMode,
    /// Torch frame and time spent in it.
    pub torch: (usize, u64),
    pub weapon: WeaponView,
    pub health: int,
    pub ammo_pickups: Seq<PickupSlot>,
    pub health_pickups: Seq<PickupSlot>,
    /// Time left on the damage flash.
    pub flash: u64,
    /// The Royal Flush, once placed.
    pub royal_flush: Option<PickupSlot>,
    /// Whether The Royal Flush was ever placed in this run.
    pub royal_flush_spawned: bool,
    /// Whether The King was ever placed in this run.
    pub king_spawned: bool,
    /// Whether an attack of The King was accepted in the last call of
    /// `process_dealer_attacks`.
    pub king_attacked: bool,
    pub horde: HordeManager,
    pub hand_seed: u64,
    /// How many times the emergency ammunition respawn really fired.
    pub emergency_count: u32,
}

/// A session whose Royal Flush was placed for a player at `player_cell`
/// avoiding `occupied`: at most once per run and only in Horde mode, at
/// the single cell of a spawn selection with its own seed; unchanged when
/// already placed or when no cell is found.
pub open spec fn royal_flush_placed(v: SessionView, player_cell: Cell, flags: Seq<Seq<bool>>, occupied: Seq<Cell>) -> SessionView {
    if v.royal_flush_spawned {
        v
    } else {
        let cells = spec_spawn_cells(
            v.level,
            player_cell,
            occupied,
            flags,
            1,
            false,
            spec_resource_seed(v.hand_seed, ROYAL_FLUSH_SEED_DISCRIMINATOR, 0),
        );
        if cells.len() > 0 && v.mode == GameMode::Horde {
            SessionView { royal_flush: Some(PickupSlot { cell: cells[0], active: true }), royal_flush_spawned: true, ..v }
        } else {
            v
        }
    }
}

/// The smaller of two counts.
pub open spec fn min_count(a: nat, b: nat) -> nat {
    if a < b {
        a
    } else {
        b
    }
}

/// Whether placing The Royal Flush for a player at `player_cell`, avoiding
/// `occupied`, must succeed: it is not placed yet, the run is a Horde and
/// some free cell is reachable.
pub open spec fn royal_flush_owed(v: SessionView, player_cell: Cell, occupied: Seq<Cell>) -> bool {
    &&& !v.royal_flush_spawned
    &&& v.mode == GameMode::Horde
    &&& band_pool(v.level, player_cell, occupied, 1, u32::MAX).len() > 0
}

/// The Royal Flush is placed, active, on a free cell (walkable, reachable,
/// not the player's, not in `occupied`).
pub open spec fn royal_flush_free(v: SessionView, player_cell: Cell, occupied: Seq<Cell>) -> bool {
    v.royal_flush matches Some(p) && p.active && free_cell(v.level, player_cell, occupied, p.cell.0 as int, p.cell.1 as int)
}

/// Rounds the player can still reach: magazine, reserve and the rounds
/// of every active ammunition pickup.
pub open spec fn accessible_ammo(v: SessionView) -> nat {
    (v.weapon.magazine + v.weapon.reserve + active_cells(v.ammo_pickups).len() * AMMO_PICKUP_AMOUNT) as nat
}

/// The seed after `seed`, wrapping around.
pub open spec fn next_seed(seed: u64) -> u64 {
    if seed == u64::MAX {
        0
    } else {
        (seed + 1) as u64
    }
}

/// Cells of the extra ammunition pickups of an intermission sized for
/// `dealers` Dealers: as many as `extra_ammo_pickups_needed` asks given
/// the accessible ammunition, chosen like a spawn with the seed after
/// `spawn_seed`, avoiding `occupied`.
pub open spec fn supply_ammo_cells(
    v: SessionView,
    player_cell: Cell,
    flags: Seq<Seq<bool>>,
    occupied: Seq<Cell>,
    spawn_seed: u64,
    dealers: nat,
) -> Seq<Cell> {
    spec_spawn_cells(
        v.level,
        player_cell,
        occupied,
        flags,
        spec_extra_ammo_pickups_needed(dealers, accessible_ammo(v)),
        false,
        next_seed(spawn_seed),
    )
}

/// Health pickups missing to reach the deterministic target of the
/// current Hand.
pub open spec fn missing_health_pickups(v: SessionView) -> nat {
    let target = spec_health_pickup_target(v.hand_seed, v.horde.spec_hand_number());
    let active = active_cells(v.health_pickups).len();
    if target > active {
        (target - active) as nat
    } else {
        0
    }
}

/// Cells of the health pickups of an intermission: the missing ones,
/// chosen like a spawn with the Hand's health seed, avoiding `occupied`.
pub open spec fn supply_health_cells(v: SessionView, player_cell: Cell, flags: Seq<Seq<bool>>, occupied: Seq<Cell>) -> Seq<Cell> {
    spec_spawn_cells(
        v.level,
        player_cell,
        occupied,
        flags,
        missing_health_pickups(v),
        false,
        spec_resource_seed(v.hand_seed, HEALTH_SPAWN_SEED_DISCRIMINATOR, v.horde.spec_hand_number() as u64),
    )
}

/// The session after the supplies of an intermission: the extra
/// ammunition pickups, then the missing health pickups (which also avoid
/// the new ammunition). Nothing is ever removed, and the magazine,
/// reserve and health are never filled directly.
pub open spec fn supplied(
    v: SessionView,
    player_cell: Cell,
    flags: Seq<Seq<bool>>,
    occupied: Seq<Cell>,
    spawn_seed: u64,
    dealers: nat,
) -> SessionView {
    let ammo = supply_ammo_cells(v, player_cell, flags, occupied, spawn_seed, dealers);
    let health = supply_health_cells(v, player_cell, flags, occupied + ammo);
    SessionView {
        ammo_pickups: v.ammo_pickups + new_pickups(ammo),
        health_pickups: v.health_pickups + new_pickups(health),
        ..v
    }
}

/// With few Dealers, saturating the accessible ammunition at `u32::MAX`
/// does not change how many extra pickups are needed.
proof fn lemma_extra_ammo_saturates(dealers: nat, accessible: nat)
    requires
        dealers <= GLOBAL_HARD_DEALER_CAP,
    ensures
        spec_extra_ammo_pickups_needed(dealers, if accessible < u32::MAX { accessible } else { u32::MAX as nat })
            == spec_extra_ammo_pickups_needed(dealers, accessible),
{
}

/// Total damage of the accepted attacks `attacks`.
pub open spec fn attacks_damage(attacks: Seq<EnemyKind>) -> int
    decreases attacks.len(),
{
    if attacks.len() == 0 {
        0
    } else {
        attacks_damage(attacks.drop_last()) + attacks.last().spec_attack_damage()
    }
}

/// Whether the player is in range of pickup `i` (false beyond the flags).
pub open spec fn in_range_at(in_range: Seq<bool>, i: int) -> bool {
    0 <= i < in_range.len() && in_range[i]
}

/// The first `n` ammunition pickups collected in order, with the reserve
/// at `reserve`: an active pickup in range is consumed only when the
/// reserve can take at least one round, and then gives up to six rounds.
/// Returns the pickups, the reserve and how many were consumed.
pub open spec fn ammo_collection(pickups: Seq<PickupSlot>, in_range: Seq<bool>, reserve: int, n: int) -> (
    Seq<PickupSlot>,
    int,
    nat,
)
    decreases n,
{
    if n <= 0 {
        (pickups, reserve, 0)
    } else {
        let prev = ammo_collection(pickups, in_range, reserve, n - 1);
        let item = pickups[n - 1];
        if item.active && in_range_at(in_range, n - 1) && prev.1 < crate::weapon::MAX_RESERVE_AMMO {
            (
                prev.0.update(n - 1, PickupSlot { cell: item.cell, active: false }),
                if prev.1 + AMMO_PICKUP_AMOUNT < crate::weapon::MAX_RESERVE_AMMO {
                    prev.1 + AMMO_PICKUP_AMOUNT
                } else {
                    crate::weapon::MAX_RESERVE_AMMO as int
                },
                prev.2 + 1,
            )
        } else {
            prev
        }
    }
}

/// The first `n` health pickups collected in order, with the player's
/// health at `health`: an active pickup in range is consumed only when
/// health is below the maximum, and then heals up to 20.
pub open spec fn health_collection(pickups: Seq<PickupSlot>, in_range: Seq<bool>, health: int, n: int) -> (
    Seq<PickupSlot>,
    int,
    nat,
)
    decreases n,
{
    if n <= 0 {
        (pickups, health, 0)
    } else {
        let prev = health_collection(pickups, in_range, health, n - 1);
        let item = pickups[n - 1];
        if item.active && in_range_at(in_range, n - 1) && prev.1 < PLAYER_MAX_HEALTH {
            (
                prev.0.update(n - 1, PickupSlot { cell: item.cell, active: false }),
                if prev.1 + HEALTH_PICKUP_AMOUNT < PLAYER_MAX_HEALTH {
                    prev.1 + HEALTH_PICKUP_AMOUNT
                } else {
                    PLAYER_MAX_HEALTH as int
                },
                prev.2 + 1,
            )
        } else {
            prev
        }
    }
}

/// Collecting ammunition keeps the pickups' length, leaves the pickups
/// not reached yet untouched, keeps the reserve within its limits and
/// consumes at most one pickup per step.
proof fn lemma_ammo_collection(pickups: Seq<PickupSlot>, in_range: Seq<bool>, reserve: int, n: int)
    requires
        0 <= n <= pickups.len(),
        0 <= reserve <= crate::weapon::MAX_RESERVE_AMMO,
    ensures
        ({
            let r = ammo_collection(pickups, in_range, reserve, n);
            &&& r.0.len() == pickups.len()
            &&& forall|j: int| n <= j < pickups.len() ==> r.0[j] == pickups[j]
            &&& 0 <= r.1 <= crate::weapon::MAX_RESERVE_AMMO
            &&& r.2 <= n
        }),
    decreases n,
{
    if n > 0 {
        lemma_ammo_collection(pickups, in_range, reserve, n - 1);
    }
}

/// Collecting health keeps the pickups' length, leaves the pickups not
/// reached yet untouched, keeps health within its limits and consumes at
/// most one pickup per step.
proof fn lemma_health_collection(pickups: Seq<PickupSlot>, in_range: Seq<bool>, health: int, n: int)
    requires
        0 <= n <= pickups.len(),
        0 <= health <= PLAYER_MAX_HEALTH,
    ensures
        ({
            let r = health_collection(pickups, in_range, health, n);
            &&& r.0.len() == pickups.len()
            &&& forall|j: int| n <= j < pickups.len() ==> r.0[j] == pickups[j]
            &&& 0 <= r.1 <= PLAYER_MAX_HEALTH
            &&& r.2 <= n
        }),
    decreases n,
{
    if n > 0 {
        lemma_health_collection(pickups, in_range, health, n - 1);
    }
}

/// What a frame of the Hands system asks of the caller: the outcome of
/// the frame, the cells of the new Dealers to create, and the cell of
/// The King when it enters.
pub struct HandStep {
    pub outcome: Option<HandOutcome>,
    pub dealer_cells: Vec<Cell>,
    pub king_cell: Option<Cell>,
}

/// The running game.
pub struct GameSession {
    level: Level,
    view_mode: ViewMode,
    torch_animation: TorchAnimationState,
    weapon: Weapon,
    health: PlayerHealth,
    ammo_pickups: Vec<PickupSlot>,
    health_pickups: Vec<PickupSlot>,
    hit_flash: HitFlashState,
    royal_flush_pickup: Option<PickupSlot>,
    king_spawned: bool,
    king_attacked_this_frame: bool,
    horde: HordeManager,
    hand_seed: u64,
    emergency_ammo_spawn_count: u32,
    mode: GameMode,
}

impl View for GameSession {
    type V = SessionView;

    closed spec fn view(&self) -> SessionView {
        SessionView {
            level: self.level,
            mode: self.mode,
            view_mode: self.view_mode,
            torch: self.torch_animation@,
            weapon: self.weapon@,
            health: self.health@,
            ammo_pickups: self.ammo_pickups@,
            health_pickups: self.health_pickups@,
            flash: self.hit_flash@,
            royal_flush: self.royal_flush_pickup,
            royal_flush_spawned: self.royal_flush_pickup is Some,
            king_spawned: self.king_spawned,
            king_attacked: self.king_attacked_this_frame,
            horde: self.horde,
            hand_seed: self.hand_seed,
            emergency_count: self.emergency_ammo_spawn_count,
        }
    }
}

/// The weapon of a new session.
pub open spec fn fresh_weapon() -> WeaponView {
    WeaponView {
        state: WeaponState::Idle,
        elapsed: 0,
        cooldown: 0,
        magazine: MAGAZINE_CAPACITY,
        reserve: INITIAL_RESERVE_AMMO,
        tier: WeaponTier::Standard,
    }
}

/// The Dealers a new session starts with beyond the level's own: in
/// Horde mode, as many as the first Hand's drawn count exceeds them.
pub open spec fn first_hand_deficit(level: Level, hand_seed: u64, mode: GameMode, config: HordeHandConfig) -> nat {
    let initial = tiles_where(level.tiles(), ENEMY_TILE).len();
    let target = spec_first_hand_dealer_count(hand_seed, config.first_hand_min, config.first_hand_max);
    if mode == GameMode::Horde && target > initial {
        (target - initial) as nat
    } else {
        0
    }
}

impl GameSession {
    /// The maze of this session.
    pub fn level(&self) -> (level: &Level)
        ensures
            *level == self@.level,
    {
        &self.level
    }

    /// The mode (Portal or Horde) the session was built with.
    pub fn mode(&self) -> (mode: GameMode)
        ensures
            mode == self@.mode,
    {
        self.mode
    }

    /// The view currently shown.
    pub fn view_mode(&self) -> (view: ViewMode)
        ensures
            view == self@.view_mode,
    {
        self.view_mode
    }

    /// Switches between the 2D map and the 3D view.
    pub fn toggle_view_mode(&mut self)
        ensures
            final(self)@ == (SessionView { view_mode: final(self)@.view_mode, ..old(self)@ }),
            final(self)@.view_mode != old(self)@.view_mode,
    {
        self.view_mode = self.view_mode.toggled();
    }

    /// Number of the Hand in progress (1 is HAND I).
    pub fn hand_number(&self) -> (n: usize)
        ensures
            n == self@.horde.spec_hand_number(),
            n >= 1,
    {
        self.horde.hand_number()
    }

    /// Whether The King was ever placed in this run (alive or corpse).
    pub fn king_spawned(&self) -> (spawned: bool)
        ensures
            spawned == self@.king_spawned,
    {
        self.king_spawned
    }

    /// Whether an attack of The King was accepted in the last call of
    /// `process_dealer_attacks`.
    pub fn king_attacked_this_frame(&self) -> (attacked: bool)
        ensures
            attacked == self@.king_attacked,
    {
        self.king_attacked_this_frame
    }

    /// The Horde victory: in Horde mode, The King was placed in the final
    /// Hand and no King is alive any more among `enemies`. Reaching the
    /// final Hand with The King alive does not count.
    pub fn horde_completed(&self, enemies: &Vec<EnemyRecord>) -> (completed: bool)
        ensures
            completed == (self@.mode == GameMode::Horde && self@.king_spawned && !spec_king_alive(enemies@)),
    {
        self.mode == GameMode::Horde && self.king_spawned && !king_alive(enemies)
    }

    /// The HUD message of the Hands system for this frame.
    pub fn hand_hud_message(&self) -> (message: HandHudMessage)
        ensures
            message == spec_hud_message(
                self@.horde.spec_phase(),
                self@.horde.spec_banner_remaining(),
                self@.horde.spec_hand_number(),
            ),
    {
        self.horde.hud_message()
    }

    /// How many times the emergency ammunition respawn fired.
    pub fn emergency_ammo_spawn_count(&self) -> (count: u32)
        ensures
            count == self@.emergency_count,
    {
        self.emergency_ammo_spawn_count
    }

    /// Runs the damage flash down by `delta_us` of game time.
    pub fn update_hit_flash(&mut self, delta_us: u64)
        ensures
            final(self)@ == (SessionView {
                flash: if old(self)@.flash > delta_us { (old(self)@.flash - delta_us) as u64 } else { 0 },
                ..old(self)@
            }),
    {
        self.hit_flash.update(delta_us);
    }

    /// Whether the damage flash is showing.
    pub fn is_hit_flash_active(&self) -> (active: bool)
        ensures
            active == (self@.flash > 0),
    {
        self.hit_flash.is_active()
    }

    /// The ammunition pickups of the session, active and collected.
    pub fn ammo_pickups(&self) -> (pickups: &Vec<PickupSlot>)
        ensures
            pickups@ == self@.ammo_pickups,
    {
        &self.ammo_pickups
    }

    /// The health pickups of the session, active and collected.
    pub fn health_pickups(&self) -> (pickups: &Vec<PickupSlot>)
        ensures
            pickups@ == self@.health_pickups,
    {
        &self.health_pickups
    }

    /// The Royal Flush of this run, once placed.
    pub fn royal_flush_pickup(&self) -> (pickup: Option<PickupSlot>)
        ensures
            pickup == self@.royal_flush,
            (pickup is Some) == self@.royal_flush_spawned,
    {
        self.royal_flush_pickup
    }

    /// Whether The Royal Flush was ever placed in this run.
    pub fn royal_flush_spawned(&self) -> (spawned: bool)
        ensures
            spawned == self@.royal_flush_spawned,
            spawned == (self@.royal_flush is Some),
    {
        self.royal_flush_pickup.is_some()
    }

    /// Advances the torch animation by `delta_us` of game time.
    pub fn update_torch_animation(&mut self, delta_us: u64)
        ensures
            final(self)@ == (SessionView { torch: torch_after(old(self)@.torch, delta_us as int), ..old(self)@ }),
    {
        self.torch_animation.update(delta_us);
    }

    /// The torch frame shown.
    pub fn torch_frame_index(&self) -> (frame: usize)
        ensures
            frame == self@.torch.0,
            frame < TORCH_FRAME_COUNT,
    {
        self.torch_animation.frame_index()
    }

    /// Advances the weapon by `delta_us` of game time.
    pub fn update_weapon(&mut self, delta_us: u64)
        ensures
            final(self)@ == (SessionView { weapon: old(self)@.weapon.advanced(delta_us as int), ..old(self)@ }),
    {
        self.weapon.update(delta_us);
    }

    /// The state of the weapon's visual cycle.
    pub fn weapon_state(&self) -> (state: WeaponState)
        ensures
            state == self@.weapon.state,
    {
        self.weapon.state()
    }

    /// The tier of the weapon.
    pub fn weapon_tier(&self) -> (tier: WeaponTier)
        ensures
            tier == self@.weapon.tier,
    {
        self.weapon.tier()
    }

    /// Progress of the reload in progress, in millionths.
    pub fn weapon_reload_progress(&self) -> (progress: Option<u32>)
        ensures
            progress == self@.weapon.spec_reload_progress(),
    {
        self.weapon.reload_progress()
    }

    /// Tries to fire the weapon (see `Weapon::try_fire`).
    pub fn try_fire_weapon(&mut self) -> (accepted: bool)
        ensures
            accepted == old(self)@.weapon.can_fire(),
            final(self)@ == (SessionView {
                weapon: if accepted { old(self)@.weapon.fired() } else { old(self)@.weapon },
                ..old(self)@
            }),
    {
        self.weapon.try_fire()
    }

    /// Tries to start a reload (see `Weapon::try_start_reload`).
    pub fn try_start_weapon_reload(&mut self) -> (accepted: bool)
        ensures
            accepted == old(self)@.weapon.can_reload(),
            final(self)@ == (SessionView {
                weapon: if accepted { old(self)@.weapon.reloading() } else { old(self)@.weapon },
                ..old(self)@
            }),
    {
        self.weapon.try_start_reload()
    }

    /// The player's health.
    pub fn player_health(&self) -> (health: i32)
        ensures
            health == self@.health,
            0 <= health <= PLAYER_MAX_HEALTH,
    {
        self.health.health()
    }

    /// Rounds in the magazine.
    pub fn weapon_ammo(&self) -> (ammo: u32)
        ensures
            ammo == self@.weapon.magazine,
    {
        self.weapon.ammo()
    }

    /// Rounds in reserve.
    pub fn weapon_reserve_ammo(&self) -> (reserve: u32)
        ensures
            reserve == self@.weapon.reserve,
    {
        self.weapon.reserve_ammo()
    }

    /// The cells where nothing new may be placed, for a player at
    /// `player_cell` and enemies at `enemy_cells`.
    fn occupied_with(&self, player_cell: Cell, enemy_cells: &Vec<Cell>) -> (occupied: Vec<Cell>)
        ensures
            occupied@ == occupied_cells(
                player_cell,
                self@.level.spec_goal(),
                enemy_cells@,
                self@.ammo_pickups,
                self@.health_pickups,
            ),
    {
        let mut occupied: Vec<Cell> = Vec::new();
        occupied.push(player_cell);
        occupied.push(self.level.goal());
        let mut all = concat_cells(occupied, enemy_cells);
        append_active_cells(&self.ammo_pickups, &mut all);
        append_active_cells(&self.health_pickups, &mut all);
        proof {
            assert(seq![player_cell, self.level.spec_goal()] =~= seq![player_cell].push(self.level.spec_goal()));
        }
        all
    }

    /// The cells where nothing new may be placed: the player's cell, the
    /// goal, every enemy (alive or corpse) and every active pickup.
    pub fn occupied_world_cells(&self, player_cell: Cell, enemies: &Vec<EnemyRecord>) -> (occupied: Vec<Cell>)
        ensures
            occupied@ == occupied_cells(
                player_cell,
                self@.level.spec_goal(),
                enemy_cells(enemies@),
                self@.ammo_pickups,
                self@.health_pickups,
            ),
    {
        let mut cells: Vec<Cell> = Vec::new();
        let mut i: usize = 0;
        while i < enemies.len()
            invariant
                i <= enemies@.len(),
                cells@ == enemy_cells(enemies@.subrange(0, i as int)),
            decreases enemies@.len() - i,
        {
            cells.push(enemies[i].cell);
            i += 1;
            proof {
                assert(cells@ =~= enemy_cells(enemies@.subrange(0, i as int)));
            }
        }
        proof {
            assert(enemies@.subrange(0, enemies@.len() as int) =~= enemies@);
        }
        self.occupied_with(player_cell, &cells)
    }

    /// Places The Royal Flush at `(row, column)`, once per run and only in
    /// Horde mode; otherwise nothing changes.
    pub fn spawn_royal_flush_pickup(&mut self, cell: Cell)
        ensures
            old(self)@.royal_flush_spawned || old(self)@.mode != GameMode::Horde ==> final(self)@ == old(self)@,
            !(old(self)@.royal_flush_spawned || old(self)@.mode != GameMode::Horde) ==> final(self)@ == (SessionView {
                royal_flush: Some(PickupSlot { cell, active: true }),
                royal_flush_spawned: true,
                ..old(self)@
            }),
    {
        if self.royal_flush_pickup.is_some() || self.mode != GameMode::Horde {
            return;
        }
        self.royal_flush_pickup = Some(PickupSlot { cell, active: true });
    }

    /// Places The Royal Flush at a cell chosen like any intermission
    /// spawn (one cell, its own seed), avoiding `occupied`: see
    /// `royal_flush_placed`.
    fn place_royal_flush_pickup(&mut self, player_cell: Cell, visible: &Vec<Vec<bool>>, occupied: &Vec<Cell>)
        ensures
            final(self)@ == royal_flush_placed(old(self)@, player_cell, deep_flags(visible@), occupied@),
            royal_flush_owed(old(self)@, player_cell, occupied@) ==> royal_flush_free(
                final(self)@,
                player_cell,
                occupied@,
            ),
    {
        if self.royal_flush_pickup.is_some() {
            return;
        }
        let seed = spawn_seed_for_royal_flush(self.hand_seed);
        let cells = select_spawn_cells(&self.level, player_cell, visible, occupied, 1, false, seed);
        if cells.len() > 0 {
            proof {
                assert(free_cell(self@.level, player_cell, occupied@, cells@[0].0 as int, cells@[0].1 as int));
            }
            self.spawn_royal_flush_pickup(cells[0]);
        }
    }

    /// A new session on `level` for a player at `player_cell` (whose view
    /// cone is `visible`), with the Dealer cells where the caller must
    /// create the initial Dealers: one per `e` marker of the level and, in
    /// Horde mode, as many more as the first Hand's drawn count requires,
    /// chosen like a Hand spawn (seed of Hand I). Every ammunition and
    /// health marker gets an active pickup; the weapon is new, health is
    /// full, the Hands start at HAND I. In Horde mode with the final Hand
    /// numbered 2, The Royal Flush is placed right away.
    pub fn new(
        level: Level,
        player_cell: Cell,
        visible: &Vec<Vec<bool>>,
        hand_seed: u64,
        mode: GameMode,
        config: HordeHandConfig,
        use_clusters: bool,
    ) -> (result: (GameSession, Vec<Cell>))
        requires
            mode == GameMode::Horde && config.first_hand_min < config.first_hand_max ==> config.first_hand_max
                - config.first_hand_min < usize::MAX,
        ensures
            ({
                let session = result.0@;
                let dealers = result.1@;
                let flags = deep_flags(visible@);
                let initial = tiles_where(level.tiles(), ENEMY_TILE);
                let ammo = new_pickups(tiles_where(level.tiles(), AMMO_TILE));
                let health = new_pickups(tiles_where(level.tiles(), HEALTH_TILE));
                let deficit = first_hand_deficit(level, hand_seed, mode, config);
                let occupied0 = occupied_cells(player_cell, level.spec_goal(), initial, ammo, health);
                let base = SessionView {
                    level,
                    mode,
                    view_mode: ViewMode::Map2D,
                    torch: (0usize, 0u64),
                    weapon: fresh_weapon(),
                    health: PLAYER_MAX_HEALTH as int,
                    ammo_pickups: ammo,
                    health_pickups: health,
                    flash: 0,
                    royal_flush: None,
                    royal_flush_spawned: false,
                    king_spawned: false,
                    king_attacked: false,
                    horde: session.horde,
                    hand_seed,
                    emergency_count: 0,
                };
                &&& dealers.len() >= initial.len()
                &&& dealers.subrange(0, initial.len() as int) == initial
                &&& dealers.len() <= initial.len() + deficit
                &&& deficit == 0 ==> dealers == initial
                &&& deficit > 0 ==> dealers == initial + spec_spawn_cells(
                    level,
                    player_cell,
                    occupied0,
                    flags,
                    deficit,
                    use_clusters,
                    spec_hand_seed(hand_seed, 1),
                )
                &&& session.horde.spec_hand_number() == 1
                &&& session.horde.spec_previous_spawn_count() == dealers.len()
                &&& session.horde.spec_phase() == crate::hand::HandPhase::Active
                &&& session.horde.spec_banner_remaining() == 0
                &&& session == if mode == GameMode::Horde && config.final_hand_number == 2 {
                    royal_flush_placed(
                        base,
                        player_cell,
                        flags,
                        occupied_cells(player_cell, level.spec_goal(), dealers, ammo, health),
                    )
                } else {
                    base
                }
                &&& session.royal_flush is Some ==> mode == GameMode::Horde && config.final_hand_number == 2
                &&& mode == GameMode::Horde && config.final_hand_number == 2 && band_pool(
                    level,
                    player_cell,
                    occupied_cells(player_cell, level.spec_goal(), dealers, ammo, health),
                    1,
                    u32::MAX,
                ).len() > 0 ==> royal_flush_free(
                    session,
                    player_cell,
                    occupied_cells(player_cell, level.spec_goal(), dealers, ammo, health),
                )
            }),
    {
        let ghost flags = deep_flags(visible@);
        let initial = level.enemy_spawns();
        let mut dealers = concat_cells(Vec::new(), initial);
        proof {
            assert(dealers@ =~= initial@);
        }
        let mut ammo_pickups: Vec<PickupSlot> = Vec::new();
        push_pickups(&mut ammo_pickups, level.ammo_spawns());
        let mut health_pickups: Vec<PickupSlot> = Vec::new();
        push_pickups(&mut health_pickups, level.health_spawns());
        proof {
            assert(ammo_pickups@ =~= new_pickups(tiles_where(level.tiles(), AMMO_TILE)));
            assert(health_pickups@ =~= new_pickups(tiles_where(level.tiles(), HEALTH_TILE)));
            assert(dealers@.subrange(0, dealers@.len() as int) =~= dealers@);
        }
        if mode == GameMode::Horde {
            let target = first_hand_dealer_count(hand_seed, config.first_hand_min, config.first_hand_max);
            let deficit = if target > dealers.len() { target - dealers.len() } else { 0 };
            if deficit > 0 {
                let mut occupied: Vec<Cell> = Vec::new();
                occupied.push(player_cell);
                occupied.push(level.goal());
                let mut occupied = concat_cells(occupied, &dealers);
                append_active_cells(&ammo_pickups, &mut occupied);
                append_active_cells(&health_pickups, &mut occupied);
                proof {
                    assert(seq![player_cell, level.spec_goal()] =~= seq![player_cell].push(level.spec_goal()));
                }
                let seed = spawn_seed_for_hand(hand_seed, 1);
                let extra = select_spawn_cells(&level, player_cell, visible, &occupied, deficit, use_clusters, seed);
                let ghost before = dealers@;
                dealers = concat_cells(dealers, &extra);
                proof {
                    assert(dealers@.subrange(0, before.len() as int) =~= before);
                }
            }
        }
        let horde = HordeManager::new(dealers.len());
        let mut session = GameSession {
            level,
            view_mode: ViewMode::Map2D,
            torch_animation: TorchAnimationState::new(),
            weapon: Weapon::new(),
            health: PlayerHealth::new(),
            ammo_pickups,
            health_pickups,
            hit_flash: HitFlashState::new(),
            royal_flush_pickup: None,
            king_spawned: false,
            king_attacked_this_frame: false,
            horde,
            hand_seed,
            emergency_ammo_spawn_count: 0,
            mode,
        };
        if mode == GameMode::Horde && config.final_hand_number == 2 {
            let occupied = session.occupied_with(player_cell, &dealers);
            session.place_royal_flush_pickup(player_cell, visible, &occupied);
        }
        (session, dealers)
    }

    /// The accessible ammunition, saturated at `u32::MAX`.
    fn accessible_ammo_now(&self) -> (accessible: u32)
        ensures
            accessible == if accessible_ammo(self@) < u32::MAX { accessible_ammo(self@) } else { u32::MAX as nat },
    {
        let active_ammo = count_active(&self.ammo_pickups);
        let reachable: u128 = self.weapon.ammo() as u128 + self.weapon.reserve_ammo() as u128
            + (active_ammo as u128) * (AMMO_PICKUP_AMOUNT as u128);
        if reachable > u32::MAX as u128 {
            u32::MAX
        } else {
            reachable as u32
        }
    }

    /// Adds the extra ammunition pickups of an intermission (see
    /// `supply_ammo_cells`), whose cells join `occupied`.
    fn add_extra_ammo(
        &mut self,
        player_cell: Cell,
        visible: &Vec<Vec<bool>>,
        occupied: &mut Vec<Cell>,
        spawn_seed: u64,
        dealer_equivalent: usize,
    )
        requires
            dealer_equivalent <= GLOBAL_HARD_DEALER_CAP,
        ensures
            ({
                let ammo = supply_ammo_cells(
                    old(self)@,
                    player_cell,
                    deep_flags(visible@),
                    old(occupied)@,
                    spawn_seed,
                    dealer_equivalent as nat,
                );
                &&& final(self)@ == SessionView { ammo_pickups: old(self)@.ammo_pickups + new_pickups(ammo), ..old(self)@ }
                &&& final(occupied)@ == old(occupied)@ + ammo
            }),
    {
        let ghost v = self@;
        let accessible = self.accessible_ammo_now();
        let extra = extra_ammo_pickups_needed(dealer_equivalent, accessible);
        proof {
            lemma_extra_ammo_saturates(dealer_equivalent as nat, accessible_ammo(v));
        }
        if extra > 0 {
            let pickup_seed = if spawn_seed == u64::MAX { 0 } else { spawn_seed + 1 };
            let cells = select_spawn_cells(&self.level, player_cell, visible, occupied, extra, false, pickup_seed);
            let copy = concat_cells(Vec::new(), occupied);
            proof {
                assert(copy@ =~= old(occupied)@);
            }
            let joined = concat_cells(copy, &cells);
            *occupied = joined;
            push_pickups(&mut self.ammo_pickups, &cells);
        } else {
            proof {
                assert(old(occupied)@ + Seq::<Cell>::empty() =~= old(occupied)@);
                assert(v.ammo_pickups + new_pickups(Seq::<Cell>::empty()) =~= v.ammo_pickups);
            }
        }
    }

    /// Adds the health pickups missing for the current Hand (see
    /// `supply_health_cells`).
    fn add_missing_health(&mut self, player_cell: Cell, visible: &Vec<Vec<bool>>, occupied: &Vec<Cell>)
        ensures
            final(self)@ == (SessionView {
                health_pickups: old(self)@.health_pickups + new_pickups(
                    supply_health_cells(old(self)@, player_cell, deep_flags(visible@), occupied@),
                ),
                ..old(self)@
            }),
            supply_health_cells(old(self)@, player_cell, deep_flags(visible@), occupied@).len() == min_count(
                missing_health_pickups(old(self)@),
                band_pool(old(self)@.level, player_cell, occupied@, 1, u32::MAX).len(),
            ),
    {
        let ghost v = self@;
        let hand_number = self.horde.hand_number();
        let target = health_pickup_target_for_hand(self.hand_seed, hand_number);
        let active_health = count_active(&self.health_pickups);
        let missing = if target > active_health { target - active_health } else { 0 };
        if missing > 0 {
            let health_seed = spawn_seed_for_health_replenish(self.hand_seed, hand_number);
            let cells = select_spawn_cells(&self.level, player_cell, visible, occupied, missing, false, health_seed);
            push_pickups(&mut self.health_pickups, &cells);
        } else {
            proof {
                assert(v.health_pickups + new_pickups(Seq::<Cell>::empty()) =~= v.health_pickups);
            }
        }
    }

    /// Injects the supplies of an intermission (see `supplied`); the
    /// cells of the new ammunition pickups join `occupied`.
    fn spawn_intermission_supplies(
        &mut self,
        player_cell: Cell,
        visible: &Vec<Vec<bool>>,
        occupied: &mut Vec<Cell>,
        spawn_seed: u64,
        dealer_equivalent: usize,
    )
        requires
            dealer_equivalent <= GLOBAL_HARD_DEALER_CAP,
        ensures
            final(self)@ == supplied(
                old(self)@,
                player_cell,
                deep_flags(visible@),
                old(occupied)@,
                spawn_seed,
                dealer_equivalent as nat,
            ),
            final(occupied)@ == old(occupied)@ + supply_ammo_cells(
                old(self)@,
                player_cell,
                deep_flags(visible@),
                old(occupied)@,
                spawn_seed,
                dealer_equivalent as nat,
            ),
            supply_health_cells(old(self)@, player_cell, deep_flags(visible@), final(occupied)@).len() == min_count(
                missing_health_pickups(old(self)@),
                band_pool(old(self)@.level, player_cell, final(occupied)@, 1, u32::MAX).len(),
            ),
    {
        let ghost v = self@;
        self.add_extra_ammo(player_cell, visible, occupied, spawn_seed, dealer_equivalent);
        let ghost mid = self@;
        proof {
            assert(mid.horde == v.horde && mid.hand_seed == v.hand_seed && mid.health_pickups == v.health_pickups);
            assert(missing_health_pickups(mid) == missing_health_pickups(v));
        }
        self.add_missing_health(player_cell, visible, occupied);
    }

    /// Advances the Hands system by `delta_us` of game time (see
    /// `HordeManager::tick`, with the enemies alive in `enemies`) and
    /// carries out what the frame brings:
    ///
    /// - a new Hand (`Spawn`): its Dealer cells, chosen like every spawn
    ///   (clusters when `use_clusters`) with the Hand's seed and avoiding
    ///   every occupied cell, then the intermission supplies sized for
    ///   the Dealers placed, then The Royal Flush when this Hand is the
    ///   one before the final Hand;
    /// - the final Hand (`FinalHandReached`), once per run: supplies
    ///   sized for ten Dealers, then The King at the single cell of a
    ///   spawn selection with its own seed (the player's cell as a last
    ///   resort on a degenerate map);
    /// - nothing on every other frame.
    pub fn update_hand_state(
        &mut self,
        delta_us: u64,
        player_cell: Cell,
        visible: &Vec<Vec<bool>>,
        enemies: &Vec<EnemyRecord>,
        level_cap: usize,
        use_clusters: bool,
        final_hand_number: usize,
    ) -> (step: HandStep)
        requires
            old(self)@.horde.spec_hand_number() < usize::MAX,
        ensures
            ({
                let before = old(self)@;
                let after = final(self)@;
                let flags = deep_flags(visible@);
                let ticked = SessionView { horde: after.horde, ..before };
                let occupied = occupied_cells(
                    player_cell,
                    before.level.spec_goal(),
                    enemy_cells(enemies@),
                    before.ammo_pickups,
                    before.health_pickups,
                );
                let seed = spec_hand_seed(before.hand_seed, after.horde.spec_hand_number());
                &&& tick_result(
                    before.horde,
                    after.horde,
                    delta_us,
                    alive_count(enemies@) as usize,
                    level_cap,
                    final_hand_number,
                    step.outcome,
                )
                &&& step.outcome is None ==> {
                    &&& after == ticked
                    &&& step.dealer_cells@.len() == 0
                    &&& step.king_cell is None
                }
                &&& step.outcome == Some(HandOutcome::FinalHandReached) && before.king_spawned ==> {
                    &&& after == ticked
                    &&& step.dealer_cells@.len() == 0
                    &&& step.king_cell is None
                }
                &&& step.outcome == Some(HandOutcome::FinalHandReached) && !before.king_spawned ==> {
                    let stocked = supplied(
                        ticked,
                        player_cell,
                        flags,
                        occupied,
                        seed,
                        FINAL_HAND_SUPPLY_DEALER_EQUIVALENT as nat,
                    );
                    let ammo = supply_ammo_cells(
                        ticked,
                        player_cell,
                        flags,
                        occupied,
                        seed,
                        FINAL_HAND_SUPPLY_DEALER_EQUIVALENT as nat,
                    );
                    let king = spec_spawn_cells(
                        before.level,
                        player_cell,
                        occupied + ammo,
                        flags,
                        1,
                        false,
                        spec_resource_seed(before.hand_seed, KING_SEED_DISCRIMINATOR, 0),
                    );
                    &&& after == SessionView { king_spawned: true, ..stocked }
                    &&& supply_health_cells(ticked, player_cell, flags, occupied + ammo).len() == min_count(
                        missing_health_pickups(ticked),
                        band_pool(before.level, player_cell, occupied + ammo, 1, u32::MAX).len(),
                    )
                    &&& step.dealer_cells@.len() == 0
                    &&& step.king_cell == Some(if king.len() > 0 { king[0] } else { player_cell })
                }
                &&& step.outcome matches Some(HandOutcome::Spawn { dealer_count }) ==> {
                    let dealers = step.dealer_cells@;
                    let occupied1 = occupied + dealers;
                    let stocked = supplied(ticked, player_cell, flags, occupied1, seed, dealers.len());
                    let ammo = supply_ammo_cells(ticked, player_cell, flags, occupied1, seed, dealers.len());
                    &&& dealers.len() <= dealer_count
                    &&& dealers.no_duplicates()
                    &&& all_walkable(before.level, dealers)
                    &&& dealers == spec_spawn_cells(
                        before.level,
                        player_cell,
                        occupied,
                        flags,
                        dealer_count as nat,
                        use_clusters,
                        seed,
                    )
                    &&& step.king_cell is None
                    &&& after == if final_hand_number >= 2 && after.horde.spec_hand_number() == final_hand_number
                        - 1 {
                        royal_flush_placed(stocked, player_cell, flags, occupied1 + ammo)
                    } else {
                        stocked
                    }
                    &&& supply_health_cells(ticked, player_cell, flags, occupied1 + ammo).len() == min_count(
                        missing_health_pickups(ticked),
                        band_pool(before.level, player_cell, occupied1 + ammo, 1, u32::MAX).len(),
                    )
                    &&& final_hand_number >= 2 && after.horde.spec_hand_number() == final_hand_number - 1
                        && royal_flush_owed(before, player_cell, occupied1 + ammo) ==> royal_flush_free(
                        after,
                        player_cell,
                        occupied1 + ammo,
                    )
                }
            }),
            old(self)@.king_spawned ==> final(self)@.king_spawned && step.king_cell is None,
            step.king_cell is Some ==> !old(self)@.king_spawned && final(self)@.king_spawned
                && final(self)@.horde.spec_hand_number() >= final_hand_number,
            final(self)@.horde.spec_hand_number() >= old(self)@.horde.spec_hand_number(),
            old(self)@.horde.spec_hand_number() >= final_hand_number ==> step.dealer_cells@.len() == 0 && !(
            step.outcome matches Some(HandOutcome::Spawn { .. })),
            old(self)@.king_spawned && old(self)@.horde.spec_hand_number() >= final_hand_number ==> final(self)@
                == (SessionView { horde: final(self)@.horde, ..old(self)@ }),
            old(self)@.royal_flush is None && final(self)@.royal_flush is Some ==> final_hand_number >= 2
                && final(self)@.horde.spec_hand_number() == final_hand_number - 1,
    {
        let alive = alive_enemy_count(enemies);
        let outcome = self.horde.tick(delta_us, alive, level_cap, final_hand_number);
        match outcome {
            None => HandStep { outcome, dealer_cells: Vec::new(), king_cell: None },
            Some(HandOutcome::FinalHandReached) => {
                if self.king_spawned {
                    return HandStep { outcome, dealer_cells: Vec::new(), king_cell: None };
                }
                let mut occupied = self.occupied_world_cells(player_cell, enemies);
                let seed = spawn_seed_for_hand(self.hand_seed, self.horde.hand_number());
                self.spawn_intermission_supplies(
                    player_cell,
                    visible,
                    &mut occupied,
                    seed,
                    FINAL_HAND_SUPPLY_DEALER_EQUIVALENT,
                );
                let king_seed = spawn_seed_for_king(self.hand_seed);
                let cells = select_spawn_cells(&self.level, player_cell, visible, &occupied, 1, false, king_seed);
                let king_cell = if cells.len() > 0 { cells[0] } else { player_cell };
                self.king_spawned = true;
                HandStep { outcome, dealer_cells: Vec::new(), king_cell: Some(king_cell) }
            },
            Some(HandOutcome::Spawn { dealer_count }) => {
                let occupied = self.occupied_world_cells(player_cell, enemies);
                let seed = spawn_seed_for_hand(self.hand_seed, self.horde.hand_number());
                let cells = select_spawn_cells(
                    &self.level,
                    player_cell,
                    visible,
                    &occupied,
                    dealer_count,
                    use_clusters,
                    seed,
                );
                let mut occupied = concat_cells(occupied, &cells);
                self.spawn_intermission_supplies(player_cell, visible, &mut occupied, seed, cells.len());
                if final_hand_number >= 2 && self.horde.hand_number() == final_hand_number - 1 {
                    self.place_royal_flush_pickup(player_cell, visible, &occupied);
                }
                HandStep { outcome, dealer_cells: cells, king_cell: None }
            },
        }
    }

    /// Resolves the emergency ammunition respawn: when enemies are alive,
    /// no round is left in the magazine or the reserve and no ammunition
    /// pickup is active, places `EMERGENCY_AMMO_PICKUP_COUNT` pickups near
    /// the player (see `select_emergency_ammo_cells`, with a seed that
    /// differs for each activation) and returns how many; otherwise
    /// changes nothing and returns 0. The new pickups end the condition,
    /// so it cannot fire twice in a row.
    #[verifier::rlimit(40)]
    pub fn ensure_emergency_ammo(&mut self, player_cell: Cell, enemies: &Vec<EnemyRecord>) -> (spawned: usize)
        requires
            old(self)@.emergency_count < u32::MAX,
        ensures
            ({
                let before = old(self)@;
                let needed = alive_count(enemies@) > 0 && before.weapon.magazine + before.weapon.reserve == 0
                    && active_cells(before.ammo_pickups).len() == 0;
                let occupied = occupied_cells(
                    player_cell,
                    before.level.spec_goal(),
                    enemy_cells(enemies@),
                    before.ammo_pickups,
                    before.health_pickups,
                );
                let seed = spec_resource_seed(
                    before.hand_seed,
                    EMERGENCY_AMMO_SEED_DISCRIMINATOR,
                    before.emergency_count as u64,
                );
                let cells = spec_emergency_cells(
                    before.level,
                    player_cell,
                    occupied,
                    EMERGENCY_AMMO_PICKUP_COUNT as nat,
                    seed,
                );
                &&& !needed ==> final(self)@ == before && spawned == 0
                &&& needed ==> final(self)@ == SessionView {
                    ammo_pickups: before.ammo_pickups + new_pickups(cells),
                    emergency_count: (before.emergency_count + 1) as u32,
                    ..before
                }
                &&& needed ==> spawned == cells.len()
                &&& needed ==> emergency_choice(
                    before.level,
                    player_cell,
                    occupied,
                    EMERGENCY_AMMO_PICKUP_COUNT as nat,
                    seed,
                    cells,
                )
            }),
    {
        if alive_enemy_count(enemies) == 0 {
            return 0;
        }
        if self.weapon.ammo() > 0 || self.weapon.reserve_ammo() > 0 {
            return 0;
        }
        if count_active(&self.ammo_pickups) > 0 {
            return 0;
        }
        let occupied = self.occupied_world_cells(player_cell, enemies);
        let seed = spawn_seed_for_emergency_ammo(self.hand_seed, self.emergency_ammo_spawn_count as u64);
        self.emergency_ammo_spawn_count = self.emergency_ammo_spawn_count + 1;
        let cells = select_emergency_ammo_cells(&self.level, player_cell, &occupied, EMERGENCY_AMMO_PICKUP_COUNT, seed);
        push_pickups(&mut self.ammo_pickups, &cells);
        proof {
            let before = old(self)@;
            assert(emergency_choice(
                before.level,
                player_cell,
                occupied@,
                EMERGENCY_AMMO_PICKUP_COUNT as nat,
                seed,
                cells@,
            ));
            assert(self@ == SessionView {
                ammo_pickups: before.ammo_pickups + new_pickups(cells@),
                emergency_count: (before.emergency_count + 1) as u32,
                ..before
            });
        }
        cells.len()
    }

    /// Damage of one accepted shot of the equipped weapon: the tier
    /// decides it (the caller applies it to the enemy that was hit).
    pub fn shot_damage(&self) -> (damage: i32)
        ensures
            damage == self@.weapon.tier.spec_damage(),
    {
        self.weapon.tier().damage()
    }

    /// Applies the attacks accepted this frame (`attacks`: the kind of
    /// each attacker, in order) to the player and returns the damage
    /// really applied; notes whether The King's attack was among them
    /// and restarts the damage flash once if any damage was applied.
    pub fn process_dealer_attacks(&mut self, attacks: &Vec<EnemyKind>) -> (total: i32)
        ensures
            ({
                let before = old(self)@;
                let health = if before.health > attacks_damage(attacks@) {
                    before.health - attacks_damage(attacks@)
                } else {
                    0
                };
                &&& total == before.health - health
                &&& final(self)@ == SessionView {
                    health,
                    king_attacked: attacks@.contains(EnemyKind::King),
                    flash: if total > 0 { PLAYER_HIT_FLASH_DURATION_US } else { before.flash },
                    ..before
                }
            }),
    {
        let ghost before = self@;
        let start = self.health.health();
        let mut total: i32 = 0;
        let mut king = false;
        let mut i: usize = 0;
        while i < attacks.len()
            invariant
                i <= attacks@.len(),
                0 <= start <= PLAYER_MAX_HEALTH,
                start == before.health,
                self@ == (SessionView {
                    health: self@.health,
                    king_attacked: before.king_attacked,
                    ..before
                }),
                self@.health == if start > attacks_damage(attacks@.subrange(0, i as int)) {
                    start - attacks_damage(attacks@.subrange(0, i as int))
                } else {
                    0
                },
                total == start - self@.health,
                king == attacks@.subrange(0, i as int).contains(EnemyKind::King),
                attacks_damage(attacks@.subrange(0, i as int)) >= 0,
            decreases attacks@.len() - i,
        {
            let kind = attacks[i];
            proof {
                assert(attacks@.subrange(0, i + 1).drop_last() =~= attacks@.subrange(0, i as int));
                assert(attacks@.subrange(0, i + 1).last() == kind);
            }
            if kind == EnemyKind::King {
                king = true;
            }
            let applied = self.health.apply_damage(kind.attack_damage());
            total = total + applied;
            proof {
                let sub = attacks@.subrange(0, i + 1);
                assert(sub.contains(EnemyKind::King) <==> attacks@.subrange(0, i as int).contains(EnemyKind::King)
                    || kind == EnemyKind::King) by {
                    if kind == EnemyKind::King {
                        assert(sub[i as int] == kind);
                    }
                    if sub.contains(EnemyKind::King) && kind != EnemyKind::King {
                        let k = choose|k: int| 0 <= k < sub.len() && sub[k] == EnemyKind::King;
                        assert(attacks@.subrange(0, i as int)[k] == EnemyKind::King);
                    }
                    if attacks@.subrange(0, i as int).contains(EnemyKind::King) {
                        let k = choose|k: int|
                            0 <= k < i && attacks@.subrange(0, i as int)[k] == EnemyKind::King;
                        assert(sub[k] == EnemyKind::King);
                    }
                }
            }
            i += 1;
        }
        proof {
            assert(attacks@.subrange(0, attacks@.len() as int) =~= attacks@);
        }
        self.king_attacked_this_frame = king;
        if total > 0 {
            self.hit_flash.trigger();
        }
        total
    }

    /// Collects, in order, every active ammunition pickup the player is in
    /// range of (`in_range[i]` for pickup `i`, false beyond it), each only
    /// if the reserve really takes at least one round (a pickup left
    /// behind with a full reserve stays available); returns how many were
    /// consumed. The magazine is never touched.
    pub fn collect_nearby_ammo_pickups(&mut self, in_range: &Vec<bool>) -> (collected: usize)
        ensures
            ({
                let before = old(self)@;
                let result = ammo_collection(
                    before.ammo_pickups,
                    in_range@,
                    before.weapon.reserve as int,
                    before.ammo_pickups.len() as int,
                );
                &&& final(self)@ == SessionView {
                    ammo_pickups: result.0,
                    weapon: WeaponView { reserve: result.1 as u32, ..before.weapon },
                    ..before
                }
                &&& collected == result.2
            }),
    {
        let ghost before = self@;
        let _reserve = self.weapon.reserve_ammo();
        proof {
            lemma_ammo_collection(before.ammo_pickups, in_range@, before.weapon.reserve as int, 0);
        }
        let mut collected: usize = 0;
        let mut i: usize = 0;
        while i < self.ammo_pickups.len()
            invariant
                i <= before.ammo_pickups.len(),
                before.weapon.reserve <= crate::weapon::MAX_RESERVE_AMMO,
                ({
                    let result = ammo_collection(before.ammo_pickups, in_range@, before.weapon.reserve as int, i as int);
                    &&& self@.ammo_pickups == result.0
                    &&& self@.weapon == (WeaponView { reserve: result.1 as u32, ..before.weapon })
                    &&& self@ == SessionView { ammo_pickups: self@.ammo_pickups, weapon: self@.weapon, ..before }
                    &&& collected == result.2
                    &&& result.0.len() == before.ammo_pickups.len()
                    &&& forall|j: int| i <= j < result.0.len() ==> result.0[j] == before.ammo_pickups[j]
                    &&& 0 <= result.1 <= crate::weapon::MAX_RESERVE_AMMO
                    &&& result.2 <= i
                }),
            decreases before.ammo_pickups.len() - i,
        {
            proof {
                lemma_ammo_collection(before.ammo_pickups, in_range@, before.weapon.reserve as int, i + 1);
            }
            let slot = self.ammo_pickups[i];
            let near = i < in_range.len() && in_range[i];
            if slot.active && near {
                let added = self.weapon.add_reserve_ammo(AMMO_PICKUP_AMOUNT);
                if added > 0 {
                    self.ammo_pickups.set(i, PickupSlot { cell: slot.cell, active: false });
                    collected = collected + 1;
                }
            }
            proof {
                let result = ammo_collection(before.ammo_pickups, in_range@, before.weapon.reserve as int, i + 1);
                assert(self@.ammo_pickups =~= result.0);
            }
            i += 1;
        }
        collected
    }

    /// Collects, in order, every active health pickup the player is in
    /// range of (`in_range[i]` for pickup `i`, false beyond it), each only
    /// if health is below the maximum (a pickup left behind at full health
    /// stays available); returns how many were consumed.
    pub fn collect_nearby_health_pickups(&mut self, in_range: &Vec<bool>) -> (collected: usize)
        ensures
            ({
                let before = old(self)@;
                let result = health_collection(
                    before.health_pickups,
                    in_range@,
                    before.health,
                    before.health_pickups.len() as int,
                );
                &&& final(self)@ == SessionView { health_pickups: result.0, health: result.1, ..before }
                &&& collected == result.2
            }),
    {
        let ghost before = self@;
        let start = self.health.health();
        proof {
            lemma_health_collection(before.health_pickups, in_range@, before.health, 0);
        }
        let mut collected: usize = 0;
        let mut i: usize = 0;
        while i < self.health_pickups.len()
            invariant
                i <= before.health_pickups.len(),
                0 <= before.health <= PLAYER_MAX_HEALTH,
                ({
                    let result = health_collection(before.health_pickups, in_range@, before.health, i as int);
                    &&& self@.health_pickups == result.0
                    &&& self@.health == result.1
                    &&& self@ == SessionView { health_pickups: self@.health_pickups, health: self@.health, ..before }
                    &&& collected == result.2
                    &&& result.0.len() == before.health_pickups.len()
                    &&& forall|j: int| i <= j < result.0.len() ==> result.0[j] == before.health_pickups[j]
                    &&& 0 <= result.1 <= PLAYER_MAX_HEALTH
                    &&& result.2 <= i
                }),
            decreases before.health_pickups.len() - i,
        {
            proof {
                lemma_health_collection(before.health_pickups, in_range@, before.health, i + 1);
            }
            let slot = self.health_pickups[i];
            let near = i < in_range.len() && in_range[i];
            if slot.active && near {
                let healed = self.health.heal(HEALTH_PICKUP_AMOUNT);
                if healed > 0 {
                    self.health_pickups.set(i, PickupSlot { cell: slot.cell, active: false });
                    collected = collected + 1;
                }
            }
            proof {
                let result = health_collection(before.health_pickups, in_range@, before.health, i + 1);
                assert(self@.health_pickups =~= result.0);
            }
            i += 1;
        }
        collected
    }

    /// Collects The Royal Flush when it is on the floor and the player is
    /// in range: it leaves the floor and the weapon becomes
    /// `RoyalFlush`, without touching its ammunition or state. True
    /// exactly on that frame.
    pub fn collect_nearby_royal_flush_pickup(&mut self, in_range: bool) -> (collected: bool)
        ensures
            ({
                let before = old(self)@;
                &&& collected == (in_range && before.royal_flush is Some && before.royal_flush->0.active)
                &&& collected ==> final(self)@ == SessionView {
                    royal_flush: Some(PickupSlot { cell: before.royal_flush->0.cell, active: false }),
                    weapon: WeaponView { tier: WeaponTier::RoyalFlush, ..before.weapon },
                    ..before
                }
                &&& !collected ==> final(self)@ == before
            }),
    {
        match self.royal_flush_pickup {
            Some(pickup) => {
                if !pickup.active || !in_range {
                    return false;
                }
                self.royal_flush_pickup = Some(PickupSlot { cell: pickup.cell, active: false });
                self.weapon.set_tier(WeaponTier::RoyalFlush);
                true
            },
            None => false,
        }
    }
}

/// The active pickups of `pickups` with fresh pickups appended are the
/// old active ones followed by the fresh cells.
pub proof fn lemma_active_cells_append(pickups: Seq<PickupSlot>, cells: Seq<Cell>)
    ensures
        active_cells(pickups + new_pickups(cells)) == active_cells(pickups) + cells,
    decreases cells.len(),
{
    if cells.len() == 0 {
        assert(pickups + new_pickups(cells) =~= pickups);
        assert(active_cells(pickups) + cells =~= active_cells(pickups));
    } else {
        let shorter = cells.drop_last();
        lemma_active_cells_append(pickups, shorter);
        let all = pickups + new_pickups(cells);
        assert(all.drop_last() =~= pickups + new_pickups(shorter));
        assert(all.last() == PickupSlot { cell: cells.last(), active: true });
        assert(active_cells(pickups) + cells =~= (active_cells(pickups) + shorter).push(cells.last()));
    }
}

/// Deactivating an active pickup removes exactly one active pickup.
pub proof fn lemma_active_cells_deactivate(pickups: Seq<PickupSlot>, i: int)
    requires
        0 <= i < pickups.len(),
        pickups[i].active,
    ensures
        active_cells(pickups.update(i, PickupSlot { cell: pickups[i].cell, active: false })).len() + 1
            == active_cells(pickups).len(),
    decreases pickups.len(),
{
    let updated = pickups.update(i, PickupSlot { cell: pickups[i].cell, active: false });
    if i == pickups.len() - 1 {
        assert(updated.drop_last() =~= pickups.drop_last());
    } else {
        lemma_active_cells_deactivate(pickups.drop_last(), i);
        assert(updated.drop_last() =~= pickups.drop_last().update(
            i,
            PickupSlot { cell: pickups[i].cell, active: false },
        ));
    }
}

/// A collection pass consumes each pickup at most once: the number it
/// reports is exactly the number of active pickups that became inactive,
/// a collected pickup never becomes active again, and every pickup keeps
/// its cell; the reserve never exceeds its maximum.
pub proof fn lemma_ammo_collection_counts_consumed(
    pickups: Seq<PickupSlot>,
    in_range: Seq<bool>,
    reserve: int,
    n: int,
)
    requires
        0 <= n <= pickups.len(),
        0 <= reserve <= crate::weapon::MAX_RESERVE_AMMO,
    ensures
        ({
            let r = ammo_collection(pickups, in_range, reserve, n);
            &&& active_cells(r.0).len() + r.2 == active_cells(pickups).len()
            &&& forall|j: int| 0 <= j < pickups.len() ==> (#[trigger] r.0[j]).cell == pickups[j].cell
            &&& forall|j: int| 0 <= j < pickups.len() && !pickups[j].active ==> !(#[trigger] r.0[j]).active
            &&& 0 <= r.1 <= crate::weapon::MAX_RESERVE_AMMO
            &&& r.1 >= reserve
        }),
    decreases n,
{
    lemma_ammo_collection(pickups, in_range, reserve, n);
    if n > 0 {
        lemma_ammo_collection_counts_consumed(pickups, in_range, reserve, n - 1);
        lemma_ammo_collection(pickups, in_range, reserve, n - 1);
        let prev = ammo_collection(pickups, in_range, reserve, n - 1);
        let item = pickups[n - 1];
        if item.active && in_range_at(in_range, n - 1) && prev.1 < crate::weapon::MAX_RESERVE_AMMO {
            assert(prev.0[n - 1] == item);
            lemma_active_cells_deactivate(prev.0, n - 1);
        }
    }
}

/// The same for health: the reported number is the number of pickups
/// consumed, and health never exceeds its maximum however many pickups
/// are collected.
pub proof fn lemma_health_collection_counts_consumed(
    pickups: Seq<PickupSlot>,
    in_range: Seq<bool>,
    health: int,
    n: int,
)
    requires
        0 <= n <= pickups.len(),
        0 <= health <= PLAYER_MAX_HEALTH,
    ensures
        ({
            let r = health_collection(pickups, in_range, health, n);
            &&& active_cells(r.0).len() + r.2 == active_cells(pickups).len()
            &&& forall|j: int| 0 <= j < pickups.len() ==> (#[trigger] r.0[j]).cell == pickups[j].cell
            &&& forall|j: int| 0 <= j < pickups.len() && !pickups[j].active ==> !(#[trigger] r.0[j]).active
            &&& 0 <= r.1 <= PLAYER_MAX_HEALTH
            &&& r.1 >= health
        }),
    decreases n,
{
    lemma_health_collection(pickups, in_range, health, n);
    if n > 0 {
        lemma_health_collection_counts_consumed(pickups, in_range, health, n - 1);
        lemma_health_collection(pickups, in_range, health, n - 1);
        let prev = health_collection(pickups, in_range, health, n - 1);
        let item = pickups[n - 1];
        if item.active && in_range_at(in_range, n - 1) && prev.1 < PLAYER_MAX_HEALTH {
            assert(prev.0[n - 1] == item);
            lemma_active_cells_deactivate(prev.0, n - 1);
        }
    }
}

/// Out of range, nothing is collected and nothing changes.
pub proof fn lemma_nothing_collected_out_of_range(pickups: Seq<PickupSlot>, reserve: int, health: int, n: int)
    requires
        0 <= n <= pickups.len(),
    ensures
        ammo_collection(pickups, Seq::empty(), reserve, n) == (pickups, reserve, 0nat),
        health_collection(pickups, Seq::empty(), health, n) == (pickups, health, 0nat),
    decreases n,
{
    if n > 0 {
        lemma_nothing_collected_out_of_range(pickups, reserve, health, n - 1);
    }
}

/// The Royal Flush appears at most once per run and only in Horde mode:
/// once placed, placing it again changes nothing, and outside Horde mode
/// it is never placed.
pub proof fn lemma_royal_flush_at_most_once(v: SessionView, player_cell: Cell, flags: Seq<Seq<bool>>, occupied: Seq<Cell>)
    ensures
        v.royal_flush_spawned ==> royal_flush_placed(v, player_cell, flags, occupied) == v,
        v.mode != GameMode::Horde ==> royal_flush_placed(v, player_cell, flags, occupied) == v,
        royal_flush_placed(v, player_cell, flags, occupied).royal_flush_spawned ==> v.royal_flush_spawned || v.mode
            == GameMode::Horde,
{
}

/// Intermission supplies only add: every pickup already there stays, the
/// weapon and health are untouched, and at most six ammunition pickups
/// and at most the missing health pickups are added.
pub proof fn lemma_supplies_only_add(
    v: SessionView,
    player_cell: Cell,
    flags: Seq<Seq<bool>>,
    occupied: Seq<Cell>,
    spawn_seed: u64,
    dealers: nat,
)
    requires
        v.level.well_formed_tiles(),
    ensures
        ({
            let after = supplied(v, player_cell, flags, occupied, spawn_seed, dealers);
            let ammo = supply_ammo_cells(v, player_cell, flags, occupied, spawn_seed, dealers);
            let health = supply_health_cells(v, player_cell, flags, occupied + ammo);
            &&& after.ammo_pickups.subrange(0, v.ammo_pickups.len() as int) == v.ammo_pickups
            &&& after.health_pickups.subrange(0, v.health_pickups.len() as int) == v.health_pickups
            &&& after.weapon == v.weapon
            &&& after.health == v.health
            &&& after.ammo_pickups.len() <= v.ammo_pickups.len() + spec_extra_ammo_pickups_needed(
                dealers,
                accessible_ammo(v),
            )
            &&& after.ammo_pickups.len() <= v.ammo_pickups.len() + crate::hand::MAX_EXTRA_PICKUPS_PER_HAND
            &&& after.health_pickups.len() <= v.health_pickups.len() + missing_health_pickups(v)
            &&& after.ammo_pickups == v.ammo_pickups + new_pickups(ammo)
            &&& after.health_pickups == v.health_pickups + new_pickups(health)
            &&& ammo.no_duplicates()
            &&& health.no_duplicates()
            &&& forall|i: int|
                0 <= i < ammo.len() ==> #[trigger] ammo[i] != player_cell && !occupied.contains(ammo[i])
            &&& forall|i: int|
                0 <= i < health.len() ==> #[trigger] health[i] != player_cell && !occupied.contains(health[i])
                    && !ammo.contains(health[i])
        }),
{
    let after = supplied(v, player_cell, flags, occupied, spawn_seed, dealers);
    let ammo = supply_ammo_cells(v, player_cell, flags, occupied, spawn_seed, dealers);
    let health = supply_health_cells(v, player_cell, flags, occupied + ammo);
    assert(after.ammo_pickups.subrange(0, v.ammo_pickups.len() as int) =~= v.ammo_pickups);
    assert(after.health_pickups.subrange(0, v.health_pickups.len() as int) =~= v.health_pickups);
    assert(spec_extra_ammo_pickups_needed(dealers, accessible_ammo(v)) <= crate::hand::MAX_EXTRA_PICKUPS_PER_HAND);
    lemma_spawn_cells_are_free(
        v.level,
        player_cell,
        occupied,
        flags,
        spec_extra_ammo_pickups_needed(dealers, accessible_ammo(v)),
        next_seed(spawn_seed),
    );
    lemma_spawn_cells_are_free(
        v.level,
        player_cell,
        occupied + ammo,
        flags,
        missing_health_pickups(v),
        spec_resource_seed(v.hand_seed, HEALTH_SPAWN_SEED_DISCRIMINATOR, v.horde.spec_hand_number() as u64),
    );
    assert forall|i: int| 0 <= i < health.len() implies #[trigger] health[i] != player_cell && !occupied.contains(
        health[i],
    ) && !ammo.contains(health[i]) by {
        let x = health[i];
        assert(!(occupied + ammo).contains((x.0 as usize, x.1 as usize)));
        if occupied.contains(x) {
            let k = choose|k: int| 0 <= k < occupied.len() && occupied[k] == x;
            assert((occupied + ammo)[k] == x);
        }
        if ammo.contains(x) {
            let k = choose|k: int| 0 <= k < ammo.len() && ammo[k] == x;
            assert((occupied + ammo)[occupied.len() + k] == x);
        }
    }
    assert forall|i: int| 0 <= i < ammo.len() implies #[trigger] ammo[i] != player_cell && !occupied.contains(
        ammo[i],
    ) by {
        let x = ammo[i];
        assert(!occupied.contains((x.0 as usize, x.1 as usize)));
    }
}

/// The Royal Flush is on the map (collected or not) exactly when it has
/// been spawned: a session never reports it spawned without its pickup,
/// nor holds a pickup that was never spawned.
pub proof fn lemma_royal_flush_present_once_spawned(s: GameSession)
    ensures
        s@.royal_flush_spawned == (s@.royal_flush is Some),
{
}

/// The emergency respawn cannot fire twice in a row: once it has placed
/// at least one pickup, the next call finds an active ammunition pickup.
pub proof fn lemma_emergency_respawn_settles(before: SessionView, cells: Seq<Cell>)
    requires
        cells.len() > 0,
    ensures
        active_cells(before.ammo_pickups + new_pickups(cells)).len() > 0,
{
    lemma_active_cells_append(before.ammo_pickups, cells);
}

/// A burst of attacks never takes health below zero, and the damage
/// reported is exactly the health lost: with health already at zero no
/// damage is reported (and so no flash or hit sound follows).
pub proof fn lemma_attacks_never_overkill(health: int, attacks: Seq<EnemyKind>)
    requires
        0 <= health <= PLAYER_MAX_HEALTH,
    ensures
        attacks_damage(attacks) >= 0,
        ({
            let after = if health > attacks_damage(attacks) { health - attacks_damage(attacks) } else { 0 };
            &&& 0 <= after <= health
            &&& health == 0 ==> health - after == 0
            &&& attacks.len() > 0 && health > 0 ==> health - after > 0
        }),
    decreases attacks.len(),
{
    if attacks.len() > 0 {
        lemma_attacks_never_overkill(health, attacks.drop_last());
    }
}

} // verus!
