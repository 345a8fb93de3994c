//! The Dealer Hands progression of Horde mode: which Hand is active, the
//! reloading intermission between Hands, how many Dealers the next Hand
//! brings, and the deterministic seeds from which every dynamic spawn is
//! derived.
//!
//! Times are counted in microseconds of game time.

use vstd::prelude::*;

use crate::rng::{Rng, spec_mix, spec_step};

verus! {

/// Absolute upper bound of simultaneously living Dealers, whatever the
/// level asks for.
pub const GLOBAL_HARD_DEALER_CAP: usize = 52;

/// Length of the "The House is reloading" phase (message and 3-2-1
/// countdown).
pub const RELOADING_PHASE_DURATION: u64 = 4_000_000;

/// End of the "THE HOUSE IS RELOADING..." part of the phase.
pub const RELOADING_MESSAGE_END: u64 = 1_000_000;

/// End of the "NEXT HAND IN 3..." part of the phase.
pub const COUNTDOWN_3_END: u64 = 2_000_000;

/// End of the "NEXT HAND IN 2..." part of the phase; the rest shows
/// "NEXT HAND IN 1...".
pub const COUNTDOWN_2_END: u64 = 3_000_000;

/// How long the "HAND N" banner stays up after a new Hand spawns.
pub const HAND_BANNER_DURATION: u64 = 1_000_000;

/// Standard shots needed to kill one Dealer (50 damage against 100
/// health).
pub const SHOTS_TO_KILL_ONE_DEALER: u32 = 2;

/// Reserve ammunition granted by each ammunition pickup.
pub const AMMO_PER_PICKUP: u32 = 6;

/// Most extra ammunition pickups injected at once by the base budget.
pub const MAX_EXTRA_PICKUPS_PER_HAND: usize = 6;

/// Number of pickups created by the emergency ammunition respawn.
pub const EMERGENCY_AMMO_PICKUP_COUNT: usize = 4;

/// Fewest health pickups a new Hand aims to have on the map.
pub const MIN_HAND_HEALTH_PICKUPS: usize = 3;

/// Most health pickups a new Hand aims to have on the map.
pub const MAX_HAND_HEALTH_PICKUPS: usize = 5;

/// First multiplier of the seed derivation (the golden ratio constant).
pub const SEED_MULTIPLIER_A: u64 = 0x9E37_79B9_7F4A_7C15;

/// Second multiplier of the seed derivation.
pub const SEED_MULTIPLIER_B: u64 = 0xD1B5_4A32_D192_ED03;

/// Fixed discriminators that keep the seeds of different systems apart.
pub const EMERGENCY_AMMO_SEED_DISCRIMINATOR: u64 = 0xE33A_9001;

pub const HEALTH_TARGET_SEED_DISCRIMINATOR: u64 = 0x4EA1_7002;

pub const HEALTH_SPAWN_SEED_DISCRIMINATOR: u64 = 0x4EA1_7003;

pub const FIRST_HAND_SEED_DISCRIMINATOR: u64 = 0x4E64_7004;

pub const ROYAL_FLUSH_SEED_DISCRIMINATOR: u64 = 0x2_0FA7_0005;

pub const KING_SEED_DISCRIMINATOR: u64 = 0x4116_0006;

pub const KING_SUMMON_SEED_DISCRIMINATOR: u64 = 0x4116_0007;

/// `x * y` modulo 2^64.
pub open spec fn wrapping_product(x: u64, y: u64) -> u64 {
    vstd::wrapping::u64_specs::wrapping_mul(x, y)
}

/// The seed of system `discriminator` for the `index`-th use within the
/// session seeded with `session_seed`.
pub open spec fn spec_resource_seed(session_seed: u64, discriminator: u64, index: u64) -> u64 {
    session_seed ^ wrapping_product(discriminator, SEED_MULTIPLIER_A) ^ wrapping_product(
        index,
        SEED_MULTIPLIER_B,
    )
}

/// The Dealer spawn seed of Hand `hand_number`.
pub open spec fn spec_hand_seed(session_seed: u64, hand_number: usize) -> u64 {
    session_seed ^ wrapping_product(hand_number as u64, SEED_MULTIPLIER_A)
}

/// Derives a deterministic seed from the session seed, a fixed
/// per-system discriminator and an index (a Hand number or a counter).
pub fn derive_resource_seed(session_seed: u64, discriminator: u64, index: u64) -> (seed: u64)
    ensures
        seed == spec_resource_seed(session_seed, discriminator, index),
{
    session_seed ^ discriminator.wrapping_mul(SEED_MULTIPLIER_A) ^ index.wrapping_mul(
        SEED_MULTIPLIER_B,
    )
}

/// Deterministic spawn seed of Hand `hand_number`: the same session seed
/// and Hand number always give the same layout.
pub fn derive_hand_seed(session_seed: u64, hand_number: usize) -> (seed: u64)
    ensures
        seed == spec_hand_seed(session_seed, hand_number),
{
    session_seed ^ (hand_number as u64).wrapping_mul(SEED_MULTIPLIER_A)
}

/// Spawn seed of Hand `hand_number` of the session seeded with
/// `session_seed`.
pub fn spawn_seed_for_hand(session_seed: u64, hand_number: usize) -> (seed: u64)
    ensures
        seed == spec_hand_seed(session_seed, hand_number),
{
    derive_hand_seed(session_seed, hand_number)
}

/// Seed of the `spawn_index`-th activation of the emergency ammunition
/// respawn.
pub fn spawn_seed_for_emergency_ammo(session_seed: u64, spawn_index: u64) -> (seed: u64)
    ensures
        seed == spec_resource_seed(session_seed, EMERGENCY_AMMO_SEED_DISCRIMINATOR, spawn_index),
{
    derive_resource_seed(session_seed, EMERGENCY_AMMO_SEED_DISCRIMINATOR, spawn_index)
}

/// Seed of the cell of The Royal Flush (one appearance per run).
pub fn spawn_seed_for_royal_flush(session_seed: u64) -> (seed: u64)
    ensures
        seed == spec_resource_seed(session_seed, ROYAL_FLUSH_SEED_DISCRIMINATOR, 0),
{
    derive_resource_seed(session_seed, ROYAL_FLUSH_SEED_DISCRIMINATOR, 0)
}

/// Seed of the cell where The King appears (one spawn per run).
pub fn spawn_seed_for_king(session_seed: u64) -> (seed: u64)
    ensures
        seed == spec_resource_seed(session_seed, KING_SEED_DISCRIMINATOR, 0),
{
    derive_resource_seed(session_seed, KING_SEED_DISCRIMINATOR, 0)
}

/// Seed of the cells where The King summons Dealers at threshold
/// `threshold_index`.
pub fn spawn_seed_for_king_summon(session_seed: u64, threshold_index: usize) -> (seed: u64)
    ensures
        seed == spec_resource_seed(
            session_seed,
            KING_SUMMON_SEED_DISCRIMINATOR,
            threshold_index as u64,
        ),
{
    derive_resource_seed(session_seed, KING_SUMMON_SEED_DISCRIMINATOR, threshold_index as u64)
}

/// Seed of the positions of the health pickups added for Hand
/// `hand_number`.
pub fn spawn_seed_for_health_replenish(session_seed: u64, hand_number: usize) -> (seed: u64)
    ensures
        seed == spec_resource_seed(
            session_seed,
            HEALTH_SPAWN_SEED_DISCRIMINATOR,
            hand_number as u64,
        ),
{
    derive_resource_seed(session_seed, HEALTH_SPAWN_SEED_DISCRIMINATOR, hand_number as u64)
}

/// The seed multipliers are odd, hence invertible modulo 2^64: no two
/// factors give the same product.
proof fn lemma_multiplier_a_invertible(x: u64)
    ensures
        wrapping_product(wrapping_product(x, SEED_MULTIPLIER_A), 0xF1DE_83E1_9937_733D) == x,
{
    assert(((((x * 0x9E37_79B9_7F4A_7C15u64) % 0x1_0000_0000_0000_0000) as u64) * 0xF1DE_83E1_9937_733Du64)
        % 0x1_0000_0000_0000_0000 == x) by (bit_vector);
}

proof fn lemma_multiplier_b_invertible(x: u64)
    ensures
        wrapping_product(wrapping_product(x, SEED_MULTIPLIER_B), 0x0610_6CCF_A448_E5AB) == x,
{
    assert(((((x * 0xD1B5_4A32_D192_ED03u64) % 0x1_0000_0000_0000_0000) as u64) * 0x0610_6CCF_A448_E5ABu64)
        % 0x1_0000_0000_0000_0000 == x) by (bit_vector);
}

/// A derived seed is the session seed masked by a value of the system and
/// index alone: two sessions' seeds for the same system and index differ
/// exactly as the session seeds do.
pub proof fn lemma_resource_seed_xor(first: u64, second: u64, discriminator: u64, index: u64)
    ensures
        spec_resource_seed(first, discriminator, index) ^ spec_resource_seed(second, discriminator, index) == first
            ^ second,
{
    let x = wrapping_product(discriminator, SEED_MULTIPLIER_A);
    let y = wrapping_product(index, SEED_MULTIPLIER_B);
    assert((first ^ x ^ y) ^ (second ^ x ^ y) == first ^ second) by (bit_vector);
}

/// The same holds of the Hand seeds.
pub proof fn lemma_hand_seed_xor(first: u64, second: u64, hand_number: usize)
    ensures
        spec_hand_seed(first, hand_number) ^ spec_hand_seed(second, hand_number) == first ^ second,
{
    let x = wrapping_product(hand_number as u64, SEED_MULTIPLIER_A);
    assert((first ^ x) ^ (second ^ x) == first ^ second) by (bit_vector);
}

/// Within one session and one system, different indices (Hands, counters)
/// always give different seeds.
pub proof fn lemma_resource_seed_separates_indices(session_seed: u64, discriminator: u64, first: u64, second: u64)
    requires
        first != second,
    ensures
        spec_resource_seed(session_seed, discriminator, first) != spec_resource_seed(
            session_seed,
            discriminator,
            second,
        ),
{
    let x = wrapping_product(discriminator, SEED_MULTIPLIER_A);
    let y1 = wrapping_product(first, SEED_MULTIPLIER_B);
    let y2 = wrapping_product(second, SEED_MULTIPLIER_B);
    lemma_multiplier_b_invertible(first);
    lemma_multiplier_b_invertible(second);
    assert(y1 != y2);
    assert(y1 != y2 ==> (session_seed ^ x ^ y1) != (session_seed ^ x ^ y2)) by (bit_vector);
}

/// Within one session and for one index, different systems always get
/// different seeds.
pub proof fn lemma_resource_seed_separates_systems(session_seed: u64, first: u64, second: u64, index: u64)
    requires
        first != second,
    ensures
        spec_resource_seed(session_seed, first, index) != spec_resource_seed(session_seed, second, index),
{
    let x1 = wrapping_product(first, SEED_MULTIPLIER_A);
    let x2 = wrapping_product(second, SEED_MULTIPLIER_A);
    let y = wrapping_product(index, SEED_MULTIPLIER_B);
    lemma_multiplier_a_invertible(first);
    lemma_multiplier_a_invertible(second);
    assert(x1 != x2);
    assert(x1 != x2 ==> (session_seed ^ x1 ^ y) != (session_seed ^ x2 ^ y)) by (bit_vector);
}

/// Within one session, different Hands always get different spawn seeds:
/// "same session seed and Hand number, same layout" never collides two
/// Hands.
pub proof fn lemma_hand_seed_separates_hands(session_seed: u64, first: usize, second: usize)
    requires
        first != second,
    ensures
        spec_hand_seed(session_seed, first) != spec_hand_seed(session_seed, second),
{
    let x1 = wrapping_product(first as u64, SEED_MULTIPLIER_A);
    let x2 = wrapping_product(second as u64, SEED_MULTIPLIER_A);
    lemma_multiplier_a_invertible(first as u64);
    lemma_multiplier_a_invertible(second as u64);
    assert(x1 != x2);
    assert(x1 != x2 ==> (session_seed ^ x1) != (session_seed ^ x2)) by (bit_vector);
}

/// For a fixed system and index, different session seeds always give
/// different derived seeds.
pub proof fn lemma_resource_seed_separates_sessions(
    first: u64,
    second: u64,
    discriminator: u64,
    index: u64,
)
    requires
        first != second,
    ensures
        spec_resource_seed(first, discriminator, index) != spec_resource_seed(
            second,
            discriminator,
            index,
        ),
{
    let x = wrapping_product(discriminator, SEED_MULTIPLIER_A);
    let y = wrapping_product(index, SEED_MULTIPLIER_B);
    assert(first != second ==> (first ^ x ^ y) != (second ^ x ^ y)) by (bit_vector);
}

/// For a fixed Hand number, different session seeds always give
/// different Hand seeds.
pub proof fn lemma_hand_seed_separates_sessions(first: u64, second: u64, hand_number: usize)
    requires
        first != second,
    ensures
        spec_hand_seed(first, hand_number) != spec_hand_seed(second, hand_number),
{
    let x = wrapping_product(hand_number as u64, SEED_MULTIPLIER_A);
    assert(first != second ==> (first ^ x) != (second ^ x)) by (bit_vector);
}

/// Dealer count of the first Hand of a Horde session, drawn uniformly
/// in `first_hand_min..=first_hand_max` from the session seed; the
/// minimum itself when the range holds a single value (or is empty).
pub open spec fn spec_first_hand_dealer_count(
    session_seed: u64,
    first_hand_min: usize,
    first_hand_max: usize,
) -> int {
    if first_hand_min >= first_hand_max {
        first_hand_min as int
    } else {
        let seed = spec_resource_seed(session_seed, FIRST_HAND_SEED_DISCRIMINATOR, 0);
        first_hand_min + (spec_mix(spec_step(seed)) % ((first_hand_max - first_hand_min + 1) as u64))
    }
}

/// Chooses, deterministically, how many Dealers the first Hand of a
/// Horde session brings.
pub fn first_hand_dealer_count(session_seed: u64, first_hand_min: usize, first_hand_max: usize) -> (count: usize)
    requires
        first_hand_min < first_hand_max ==> first_hand_max - first_hand_min < usize::MAX,
    ensures
        count == spec_first_hand_dealer_count(session_seed, first_hand_min, first_hand_max),
        first_hand_min < first_hand_max ==> first_hand_min <= count <= first_hand_max,
        first_hand_min >= first_hand_max ==> count == first_hand_min,
{
    if first_hand_min >= first_hand_max {
        return first_hand_min;
    }
    let seed = derive_resource_seed(session_seed, FIRST_HAND_SEED_DISCRIMINATOR, 0);
    let mut rng = Rng::new(seed);
    first_hand_min + rng.gen_range(first_hand_max - first_hand_min + 1)
}

/// Extra ammunition pickups worth injecting when a Hand of
/// `new_hand_dealer_count` Dealers starts while `accessible_ammo` rounds
/// are already reachable: two shots per Dealer with a 1.5 miss margin,
/// minus what is accessible, in pickups of six rounds, at most six.
pub open spec fn spec_extra_ammo_pickups_needed(new_hand_dealer_count: nat, accessible_ammo: nat) -> nat {
    let shots_with_margin = 3 * new_hand_dealer_count;
    let deficit = if shots_with_margin > accessible_ammo {
        (shots_with_margin - accessible_ammo) as nat
    } else {
        0nat
    };
    let pickups = (deficit + 5) / 6;
    if pickups < 6 {
        pickups
    } else {
        6
    }
}

/// The extra pickups cover the missing rounds: with `deficit` the rounds
/// a new Hand of `dealers` Dealers needs (two shots each, plus half as
/// many again) beyond the `accessible` ones, the pickups bring at least
/// the deficit (up to six pickups' worth), never a whole pickup more than
/// needed, and at least one whenever anything is missing.
pub proof fn lemma_extra_ammo_covers_the_deficit(dealers: nat, accessible: nat)
    ensures
        ({
            let needed = dealers * 2 + dealers * 2 / 2;
            let deficit: int = if needed > accessible { needed - accessible } else { 0 };
            let pickups = spec_extra_ammo_pickups_needed(dealers, accessible) as int;
            &&& 0 <= pickups <= 6
            &&& pickups * 6 >= if deficit < 36 { deficit } else { 36 }
            &&& pickups > 0 ==> (pickups - 1) * 6 < deficit
            &&& deficit > 0 ==> pickups >= 1
            &&& deficit == 0 ==> pickups == 0
        }),
{
}

/// How many extra ammunition pickups a new Hand needs (see
/// `spec_extra_ammo_pickups_needed`).
pub fn extra_ammo_pickups_needed(new_hand_dealer_count: usize, accessible_ammo: u32) -> (pickups: usize)
    requires
        new_hand_dealer_count * 2 <= u32::MAX,
    ensures
        pickups == spec_extra_ammo_pickups_needed(new_hand_dealer_count as nat, accessible_ammo as nat),
        pickups <= MAX_EXTRA_PICKUPS_PER_HAND,
        ({
            let needed = new_hand_dealer_count * 3;
            let deficit: int = if needed > accessible_ammo { needed - accessible_ammo } else { 0 };
            &&& pickups * AMMO_PER_PICKUP >= if deficit < 36 { deficit } else { 36 }
            &&& pickups > 0 ==> (pickups - 1) * AMMO_PER_PICKUP < deficit
        }),
{
    proof {
        lemma_extra_ammo_covers_the_deficit(new_hand_dealer_count as nat, accessible_ammo as nat);
    }
    let shots_needed: u64 = (new_hand_dealer_count as u64) * (SHOTS_TO_KILL_ONE_DEALER as u64);
    let shots_with_margin: u64 = shots_needed + shots_needed / 2;
    let deficit: u64 = shots_with_margin.saturating_sub(accessible_ammo as u64);
    let pickups: u64 = (deficit + (AMMO_PER_PICKUP as u64) - 1) / (AMMO_PER_PICKUP as u64);
    if pickups < MAX_EXTRA_PICKUPS_PER_HAND as u64 {
        pickups as usize
    } else {
        MAX_EXTRA_PICKUPS_PER_HAND
    }
}

/// Target number of active health pickups when Hand `hand_number`
/// starts: `3 + (draw % 3)`, from a seed of the session and the Hand.
pub open spec fn spec_health_pickup_target(session_seed: u64, hand_number: usize) -> int {
    let seed = spec_resource_seed(session_seed, HEALTH_TARGET_SEED_DISCRIMINATOR, hand_number as u64);
    MIN_HAND_HEALTH_PICKUPS + (spec_mix(spec_step(seed)) % 3)
}

/// How many health pickups should be active when Hand `hand_number`
/// starts: a deterministic value in `3..=5`.
pub fn health_pickup_target_for_hand(session_seed: u64, hand_number: usize) -> (target: usize)
    ensures
        target == spec_health_pickup_target(session_seed, hand_number),
        MIN_HAND_HEALTH_PICKUPS <= target <= MAX_HAND_HEALTH_PICKUPS,
{
    let seed = derive_resource_seed(session_seed, HEALTH_TARGET_SEED_DISCRIMINATOR, hand_number as u64);
    let mut rng = Rng::new(seed);
    MIN_HAND_HEALTH_PICKUPS + rng.gen_range(MAX_HAND_HEALTH_PICKUPS - MIN_HAND_HEALTH_PICKUPS + 1)
}

/// Temporal phase of the Hands system. Play goes on normally during
/// `Reloading`: it is a sub-phase of `Playing`, not a game state.
#[derive(Debug, Clone, Copy, PartialEq, Eq, Structural)]
pub enum HandPhase {
    Active,
    /// The intermission between Hands, with the time left in it.
    Reloading { countdown: u64 },
}

/// HUD message that the Hands system wants shown this frame.
#[derive(Debug, Clone, Copy, PartialEq, Eq, Structural)]
pub enum HandHudMessage {
    /// Nothing to show this frame.
    NoMessage,
    HouseIsReloading,
    NextHandIn(u32),
    HandBanner(usize),
}

/// What `HordeManager::tick` reports on the exact frame a new Hand
/// starts.
#[derive(Debug, Clone, Copy, PartialEq, Eq, Structural)]
pub enum HandOutcome {
    /// A normal Hand: the caller spawns `dealer_count` new Dealers.
    Spawn { dealer_count: usize },
    /// The Hand reserved as the level's final round was reached; it
    /// brings no Dealers (it is The King's fight).
    FinalHandReached,
}

/// Dealer count of the Hand after one that spawned `previous`: double
/// it (never doubling zero), clamped to the level cap and to the global
/// hard cap.
pub open spec fn spec_next_hand_count(previous: usize, level_cap: usize) -> int {
    let base = if previous > 0 { previous as int } else { 1 };
    let cap = if level_cap < GLOBAL_HARD_DEALER_CAP { level_cap as int } else { GLOBAL_HARD_DEALER_CAP as int };
    if 2 * base < cap { 2 * base } else { cap }
}

/// The HUD message for a Hands system in `phase` with `banner` time left
/// on the banner of Hand `hand_number`.
pub open spec fn spec_hud_message(phase: HandPhase, banner: u64, hand_number: usize) -> HandHudMessage {
    match phase {
        HandPhase::Reloading { countdown } => {
            let elapsed = RELOADING_PHASE_DURATION - countdown;
            if elapsed < RELOADING_MESSAGE_END {
                HandHudMessage::HouseIsReloading
            } else if elapsed < COUNTDOWN_3_END {
                HandHudMessage::NextHandIn(3)
            } else if elapsed < COUNTDOWN_2_END {
                HandHudMessage::NextHandIn(2)
            } else {
                HandHudMessage::NextHandIn(1)
            }
        },
        HandPhase::Active => {
            if banner > 0 {
                HandHudMessage::HandBanner(hand_number)
            } else {
                HandHudMessage::NoMessage
            }
        },
    }
}

/// The Horde ("Dealer Hands") progression of one session: which Hand is
/// active, whether the intermission is running, and how many Dealers
/// the last Hand spawned.
pub struct HordeManager {
    hand_number: usize,
    previous_spawn_count: usize,
    phase: HandPhase,
    banner_remaining: u64,
}

impl HordeManager {
    #[verifier::type_invariant]
    spec fn inv(self) -> bool {
        &&& self.hand_number >= 1
        &&& self.banner_remaining <= HAND_BANNER_DURATION
        &&& (self.phase matches HandPhase::Reloading { countdown } ==> countdown
            <= RELOADING_PHASE_DURATION)
    }

    /// Number of the Hand in progress (1 is HAND I).
    pub closed spec fn spec_hand_number(&self) -> usize {
        self.hand_number
    }

    /// Dealers spawned by the last Hand (or initially placed).
    pub closed spec fn spec_previous_spawn_count(&self) -> usize {
        self.previous_spawn_count
    }

    /// The current phase.
    pub closed spec fn spec_phase(&self) -> HandPhase {
        self.phase
    }

    /// Time left on the "HAND N" banner.
    pub closed spec fn spec_banner_remaining(&self) -> u64 {
        self.banner_remaining
    }

    /// The initial state: HAND I, active, no banner, with
    /// `initial_dealer_count` Dealers already placed by the level. Spawns
    /// nothing.
    pub fn new(initial_dealer_count: usize) -> (manager: Self)
        ensures
            manager.spec_hand_number() == 1,
            manager.spec_previous_spawn_count() == initial_dealer_count,
            manager.spec_phase() == HandPhase::Active,
            manager.spec_banner_remaining() == 0,
    {
        HordeManager {
            hand_number: 1,
            previous_spawn_count: initial_dealer_count,
            phase: HandPhase::Active,
            banner_remaining: 0,
        }
    }

    /// Number of the Hand in progress.
    pub fn hand_number(&self) -> (n: usize)
        ensures
            n == self.spec_hand_number(),
            n >= 1,
    {
        proof {
            use_type_invariant(self);
        }
        self.hand_number
    }

    /// The current phase.
    pub fn phase(&self) -> (phase: HandPhase)
        ensures
            phase == self.spec_phase(),
    {
        self.phase
    }

    /// The HUD message for this instant: during the intermission the
    /// reloading message for its first second, then "NEXT HAND IN 3, 2,
    /// 1"; while active, the banner of the new Hand while it lasts.
    pub fn hud_message(&self) -> (message: HandHudMessage)
        ensures
            message == spec_hud_message(self.spec_phase(), self.spec_banner_remaining(), self.spec_hand_number()),
    {
        proof {
            use_type_invariant(self);
        }
        match self.phase {
            HandPhase::Reloading { countdown } => {
                let elapsed = RELOADING_PHASE_DURATION - countdown;
                if elapsed < RELOADING_MESSAGE_END {
                    HandHudMessage::HouseIsReloading
                } else if elapsed < COUNTDOWN_3_END {
                    HandHudMessage::NextHandIn(3)
                } else if elapsed < COUNTDOWN_2_END {
                    HandHudMessage::NextHandIn(2)
                } else {
                    HandHudMessage::NextHandIn(1)
                }
            },
            HandPhase::Active => {
                if self.banner_remaining > 0 {
                    HandHudMessage::HandBanner(self.hand_number)
                } else {
                    HandHudMessage::NoMessage
                }
            },
        }
    }

    /// Advances the Hands system by `delta_time` of game time.
    ///
    /// A zero step changes nothing. While active, the banner runs down
    /// and the intermission starts as soon as no Dealer is alive. During
    /// the intermission the countdown runs down; when it runs out the
    /// next Hand begins: it is reported as `FinalHandReached` (without a
    /// banner) once its number reaches `final_hand_number`, and otherwise
    /// as `Spawn` with the doubled, capped Dealer count, showing its
    /// banner. `None` on every other frame.
    pub fn tick(
        &mut self,
        delta_time: u64,
        alive_dealer_count: usize,
        level_cap: usize,
        final_hand_number: usize,
    ) -> (outcome: Option<HandOutcome>)
        requires
            old(self).spec_hand_number() < usize::MAX,
        ensures
            tick_result(*old(self), *final(self), delta_time, alive_dealer_count, level_cap, final_hand_number, outcome),
            outcome matches Some(HandOutcome::Spawn { dealer_count }) ==> dealer_count <= level_cap
                && dealer_count <= GLOBAL_HARD_DEALER_CAP,
            outcome matches Some(HandOutcome::Spawn { dealer_count }) ==> {
                &&& dealer_count == spec_next_hand_count(old(self).spec_previous_spawn_count(), level_cap)
                &&& final(self).spec_hand_number() == old(self).spec_hand_number() + 1
                &&& final(self).spec_hand_number() < final_hand_number
                &&& spec_hud_message(
                    final(self).spec_phase(),
                    final(self).spec_banner_remaining(),
                    final(self).spec_hand_number(),
                ) == HandHudMessage::HandBanner(final(self).spec_hand_number())
            },
            outcome == Some(HandOutcome::FinalHandReached) ==> {
                &&& final(self).spec_hand_number() == old(self).spec_hand_number() + 1
                &&& final(self).spec_hand_number() >= final_hand_number
                &&& spec_hud_message(
                    final(self).spec_phase(),
                    final(self).spec_banner_remaining(),
                    final(self).spec_hand_number(),
                ) == HandHudMessage::NoMessage
            },
            delta_time == 0 ==> outcome is None && *final(self) == *old(self),
            old(self).spec_phase() == HandPhase::Active && alive_dealer_count > 0 ==> {
                &&& outcome is None
                &&& final(self).spec_hand_number() == old(self).spec_hand_number()
                &&& final(self).spec_phase() == old(self).spec_phase()
            },
    {
        proof {
            use_type_invariant(&*self);
        }
        if delta_time == 0 {
            return None;
        }
        let level_cap = if level_cap < GLOBAL_HARD_DEALER_CAP {
            level_cap
        } else {
            GLOBAL_HARD_DEALER_CAP
        };
        match self.phase {
            HandPhase::Active => {
                if self.banner_remaining > 0 {
                    self.banner_remaining = self.banner_remaining.saturating_sub(delta_time);
                }
                if alive_dealer_count == 0 {
                    self.phase = HandPhase::Reloading { countdown: RELOADING_PHASE_DURATION };
                }
                None
            },
            HandPhase::Reloading { countdown } => {
                if delta_time < countdown {
                    self.phase = HandPhase::Reloading { countdown: countdown - delta_time };
                    return None;
                }
                let next_hand_number = self.hand_number + 1;
                self.hand_number = next_hand_number;
                self.phase = HandPhase::Active;
                if next_hand_number >= final_hand_number {
                    self.banner_remaining = 0;
                    return Some(HandOutcome::FinalHandReached);
                }
                self.banner_remaining = HAND_BANNER_DURATION;
                let base = if self.previous_spawn_count > 0 {
                    self.previous_spawn_count
                } else {
                    1
                };
                let next_count = if base < level_cap && 2 * base < level_cap {
                    2 * base
                } else {
                    level_cap
                };
                self.previous_spawn_count = next_count;
                Some(HandOutcome::Spawn { dealer_count: next_count })
            },
        }
    }
}

/// How one `HordeManager::tick` relates the manager `before` and `after`
/// it and the reported `outcome` (see `HordeManager::tick`).
pub open spec fn tick_result(
    before: HordeManager,
    after: HordeManager,
    delta_time: u64,
    alive_dealer_count: usize,
    level_cap: usize,
    final_hand_number: usize,
    outcome: Option<HandOutcome>,
) -> bool {
    &&& (delta_time == 0 ==> {
        &&& outcome is None
        &&& after.spec_hand_number() == before.spec_hand_number()
        &&& after.spec_previous_spawn_count() == before.spec_previous_spawn_count()
        &&& after.spec_phase() == before.spec_phase()
        &&& after.spec_banner_remaining() == before.spec_banner_remaining()
    })
    &&& (delta_time > 0 && before.spec_phase() == HandPhase::Active ==> {
        &&& outcome is None
        &&& after.spec_hand_number() == before.spec_hand_number()
        &&& after.spec_previous_spawn_count() == before.spec_previous_spawn_count()
        &&& after.spec_banner_remaining() == (if before.spec_banner_remaining() > delta_time {
            before.spec_banner_remaining() - delta_time
        } else {
            0
        })
        &&& after.spec_phase() == (if alive_dealer_count == 0 {
            HandPhase::Reloading { countdown: RELOADING_PHASE_DURATION }
        } else {
            HandPhase::Active
        })
    })
    &&& (delta_time > 0 && before.spec_phase() is Reloading ==> {
        let countdown = before.spec_phase()->countdown;
        &&& delta_time < countdown ==> {
            &&& outcome is None
            &&& after.spec_phase() == HandPhase::Reloading { countdown: (countdown - delta_time) as u64 }
            &&& after.spec_hand_number() == before.spec_hand_number()
            &&& after.spec_previous_spawn_count() == before.spec_previous_spawn_count()
            &&& after.spec_banner_remaining() == before.spec_banner_remaining()
        }
        &&& delta_time >= countdown ==> {
            &&& after.spec_phase() == HandPhase::Active
            &&& after.spec_hand_number() == before.spec_hand_number() + 1
            &&& before.spec_hand_number() + 1 >= final_hand_number ==> {
                &&& outcome == Some(HandOutcome::FinalHandReached)
                &&& after.spec_banner_remaining() == 0
                &&& after.spec_previous_spawn_count() == before.spec_previous_spawn_count()
            }
            &&& before.spec_hand_number() + 1 < final_hand_number ==> {
                &&& outcome == Some(
                    HandOutcome::Spawn {
                        dealer_count: spec_next_hand_count(
                            before.spec_previous_spawn_count(),
                            level_cap,
                        ) as usize,
                    },
                )
                &&& after.spec_previous_spawn_count() == spec_next_hand_count(
                    before.spec_previous_spawn_count(),
                    level_cap,
                )
                &&& after.spec_banner_remaining() == HAND_BANNER_DURATION
            }
        }
    })
}

/// Each Hand doubles the Dealers of the previous one (counting an empty
/// one as one Dealer) unless a cap stops it, and then it brings exactly
/// the cap: never more than double, never less than double or the cap.
pub proof fn lemma_hand_count_doubles(previous: usize, level_cap: usize)
    ensures
        ({
            let base: int = if previous > 0 { previous as int } else { 1 };
            let cap: int = if level_cap < GLOBAL_HARD_DEALER_CAP { level_cap as int } else { 52 };
            let count = spec_next_hand_count(previous, level_cap);
            &&& count <= 2 * base
            &&& count <= cap
            &&& count == 2 * base || count == cap
            &&& 2 * base <= cap ==> count == 2 * base
        }),
{
}

/// Every Hand that spawns Dealers brings at least two of them (unless
/// the cap is lower) and never more than the level cap or the global
/// hard cap: the Dealer count of a spawning Hand is always within
/// `min(2, cap)..=cap`.
pub proof fn lemma_hand_count_within_caps(previous: usize, level_cap: usize)
    ensures
        spec_next_hand_count(previous, level_cap) <= level_cap,
        spec_next_hand_count(previous, level_cap) <= GLOBAL_HARD_DEALER_CAP,
        spec_next_hand_count(previous, level_cap) >= 0,
        level_cap >= 2 ==> spec_next_hand_count(previous, level_cap) >= 2,
        spec_next_hand_count(previous, level_cap) >= spec_next_hand_count(0, level_cap),
{
}

} // verus!
