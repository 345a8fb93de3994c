//! The player's weapon: the visual firing cycle (`Idle -> Fire -> Recoil
//! -> Idle`, and `Idle -> Reload -> Idle`), the cooldown between accepted
//! shots, the ammunition in the magazine and in reserve, and the tier of
//! the weapon (which decides the damage of a shot).
//!
//! Times are in microseconds of game time: the weapon only advances while
//! `update` is called, so not calling it (a pause) freezes it exactly.

use vstd::prelude::*;

verus! {

/// States of the weapon's visual cycle.
#[derive(Debug, Clone, Copy, PartialEq, Eq, Structural)]
pub enum WeaponState {
    Idle,
    Fire,
    Recoil,
    Reload,
}

/// Tier of the equipped weapon: `Standard` until The Royal Flush is
/// collected in the current run.
#[derive(Debug, Clone, Copy, PartialEq, Eq, Structural)]
pub enum WeaponTier {
    Standard,
    RoyalFlush,
}

impl WeaponTier {
    /// Damage of one accepted shot of this tier.
    pub open spec fn spec_damage(self) -> int {
        match self {
            WeaponTier::Standard => 50,
            WeaponTier::RoyalFlush => 100,
        }
    }

    /// Damage of one accepted shot: a Standard shot takes two to kill a
    /// Dealer of 100 health, a Royal Flush shot one.
    pub fn damage(self) -> (amount: i32)
        ensures
            amount == self.spec_damage(),
    {
        match self {
            WeaponTier::Standard => 50,
            WeaponTier::RoyalFlush => 100,
        }
    }
}

/// Duration of the `Fire` state, in microseconds.
pub const FIRE_DURATION_US: u64 = 50_000;

/// Duration of the `Recoil` state, in microseconds.
pub const RECOIL_DURATION_US: u64 = 100_000;

/// Minimum interval between accepted shots, in microseconds.
pub const FIRE_COOLDOWN_US: u64 = 250_000;

/// Capacity of the magazine.
pub const MAGAZINE_CAPACITY: u32 = 6;

/// Reserve ammunition of a new weapon (outside the magazine).
pub const INITIAL_RESERVE_AMMO: u32 = 18;

/// Most ammunition the reserve can hold.
pub const MAX_RESERVE_AMMO: u32 = 30;

/// Duration of a reload, in microseconds.
pub const RELOAD_DURATION_US: u64 = 800_000;

/// Duration of a state of the cycle (zero for `Idle`, which never ends).
pub open spec fn state_duration(state: WeaponState) -> int {
    match state {
        WeaponState::Idle => 0,
        WeaponState::Fire => FIRE_DURATION_US as int,
        WeaponState::Recoil => RECOIL_DURATION_US as int,
        WeaponState::Reload => RELOAD_DURATION_US as int,
    }
}

/// What a weapon holds, as plain values.
pub struct WeaponView {
    pub state: WeaponState,
    /// Time spent in the current state.
    pub elapsed: u64,
    /// Time left before another shot can be accepted.
    pub cooldown: u64,
    pub magazine: u32,
    pub reserve: u32,
    pub tier: WeaponTier,
}

impl WeaponView {
    /// The states a weapon can be in: ammunition within its limits, the
    /// cooldown at most one full cooldown, and the time in the current
    /// state shorter than that state (zero while `Idle`).
    pub open spec fn valid(self) -> bool {
        &&& self.magazine <= MAGAZINE_CAPACITY
        &&& self.reserve <= MAX_RESERVE_AMMO
        &&& self.cooldown <= FIRE_COOLDOWN_US
        &&& if self.state == WeaponState::Idle {
            self.elapsed == 0
        } else {
            self.elapsed < state_duration(self.state)
        }
    }

    /// Ammunition the weapon can still fire: magazine and reserve.
    pub open spec fn total_ammo(self) -> int {
        self.magazine + self.reserve
    }

    /// A shot is accepted only from `Idle`, once the cooldown is over,
    /// with ammunition in the magazine.
    pub open spec fn can_fire(self) -> bool {
        self.state == WeaponState::Idle && self.cooldown == 0 && self.magazine > 0
    }

    /// A reload starts only from `Idle`, with the magazine not full and
    /// ammunition in reserve.
    pub open spec fn can_reload(self) -> bool {
        self.state == WeaponState::Idle && self.magazine < MAGAZINE_CAPACITY && self.reserve > 0
    }

    /// The weapon after an accepted shot.
    pub open spec fn fired(self) -> WeaponView {
        WeaponView {
            state: WeaponState::Fire,
            elapsed: 0,
            cooldown: FIRE_COOLDOWN_US,
            magazine: (self.magazine - 1) as u32,
            reserve: self.reserve,
            tier: self.tier,
        }
    }

    /// The weapon after an accepted reload request.
    pub open spec fn reloading(self) -> WeaponView {
        WeaponView { state: WeaponState::Reload, elapsed: 0, ..self }
    }

    /// Rounds moved from the reserve to the magazine when a reload
    /// completes: what the magazine lacks, at most what the reserve has.
    pub open spec fn reload_amount(self) -> int {
        let needed = MAGAZINE_CAPACITY - self.magazine;
        if needed <= self.reserve {
            needed
        } else {
            self.reserve as int
        }
    }

    /// The weapon with its state and time in state replaced, cooldown
    /// reduced by `dt`.
    pub open spec fn with_state(self, state: WeaponState, elapsed: int, dt: int) -> WeaponView {
        WeaponView {
            state,
            elapsed: elapsed as u64,
            cooldown: if self.cooldown > dt { (self.cooldown - dt) as u64 } else { 0 },
            ..self
        }
    }

    /// The weapon after `dt` microseconds of game time: the cooldown
    /// runs down independently of the state; `Fire` turns into
    /// `Recoil` and `Recoil` into `Idle` when their time is up, and a
    /// reload moves the ammunition exactly when it completes. Time left
    /// over from one state carries into the next, so one long step may
    /// cross several states.
    pub open spec fn advanced(self, dt: int) -> WeaponView {
        let t = self.elapsed + dt;
        match self.state {
            WeaponState::Idle => self.with_state(WeaponState::Idle, 0, dt),
            WeaponState::Fire => if t < FIRE_DURATION_US {
                self.with_state(WeaponState::Fire, t, dt)
            } else if t - FIRE_DURATION_US < RECOIL_DURATION_US {
                self.with_state(WeaponState::Recoil, t - FIRE_DURATION_US, dt)
            } else {
                self.with_state(WeaponState::Idle, 0, dt)
            },
            WeaponState::Recoil => if t < RECOIL_DURATION_US {
                self.with_state(WeaponState::Recoil, t, dt)
            } else {
                self.with_state(WeaponState::Idle, 0, dt)
            },
            WeaponState::Reload => if t < RELOAD_DURATION_US {
                self.with_state(WeaponState::Reload, t, dt)
            } else {
                WeaponView {
                    magazine: (self.magazine + self.reload_amount()) as u32,
                    reserve: (self.reserve - self.reload_amount()) as u32,
                    ..self.with_state(WeaponState::Idle, 0, dt)
                }
            },
        }
    }

    /// Progress of the reload in millionths, while reloading.
    pub open spec fn spec_reload_progress(self) -> Option<u32> {
        if self.state == WeaponState::Reload {
            Some((self.elapsed * 1_000_000 / RELOAD_DURATION_US as int) as u32)
        } else {
            None
        }
    }
}

/// The weapon of a game session. Damage, range, sound and textures
/// belong elsewhere; the ammunition belongs here, because it decides
/// whether the weapon can fire.
pub struct Weapon {
    state: WeaponState,
    state_elapsed: u64,
    cooldown_remaining: u64,
    magazine: u32,
    reserve: u32,
    tier: WeaponTier,
}

impl View for Weapon {
    type V = WeaponView;

    closed spec fn view(&self) -> WeaponView {
        WeaponView {
            state: self.state,
            elapsed: self.state_elapsed,
            cooldown: self.cooldown_remaining,
            magazine: self.magazine,
            reserve: self.reserve,
            tier: self.tier,
        }
    }
}

impl Weapon {
    #[verifier::type_invariant]
    spec fn inv(self) -> bool {
        self@.valid()
    }

    /// A weapon ready to fire: `Idle`, no cooldown, a full magazine, the
    /// initial reserve and the `Standard` tier.
    pub fn new() -> (weapon: Self)
        ensures
            weapon@ == (WeaponView {
                state: WeaponState::Idle,
                elapsed: 0,
                cooldown: 0,
                magazine: MAGAZINE_CAPACITY,
                reserve: INITIAL_RESERVE_AMMO,
                tier: WeaponTier::Standard,
            }),
            weapon@.valid(),
    {
        Weapon {
            state: WeaponState::Idle,
            state_elapsed: 0,
            cooldown_remaining: 0,
            magazine: MAGAZINE_CAPACITY,
            reserve: INITIAL_RESERVE_AMMO,
            tier: WeaponTier::Standard,
        }
    }

    /// The state of the visual cycle.
    pub fn state(&self) -> (state: WeaponState)
        ensures
            state == self@.state,
            self@.valid(),
    {
        proof {
            use_type_invariant(self);
        }
        self.state
    }

    /// Time left before another shot can be accepted, in microseconds.
    pub fn cooldown_remaining(&self) -> (cooldown: u64)
        ensures
            cooldown == self@.cooldown,
    {
        self.cooldown_remaining
    }

    /// Rounds in the magazine.
    pub fn ammo(&self) -> (ammo: u32)
        ensures
            ammo == self@.magazine,
            ammo <= MAGAZINE_CAPACITY,
    {
        proof {
            use_type_invariant(self);
        }
        self.magazine
    }

    /// Rounds in reserve (outside the magazine).
    pub fn reserve_ammo(&self) -> (reserve: u32)
        ensures
            reserve == self@.reserve,
            reserve <= MAX_RESERVE_AMMO,
    {
        proof {
            use_type_invariant(self);
        }
        self.reserve
    }

    /// The tier of the weapon.
    pub fn tier(&self) -> (tier: WeaponTier)
        ensures
            tier == self@.tier,
    {
        self.tier
    }

    /// Changes the tier of the weapon, leaving its state and ammunition
    /// untouched.
    pub fn set_tier(&mut self, tier: WeaponTier)
        ensures
            final(self)@ == (WeaponView { tier, ..old(self)@ }),
            final(self)@.valid(),
    {
        proof {
            use_type_invariant(&*self);
        }
        self.tier = tier;
    }

    /// Progress of the reload in progress, in millionths (0 just after
    /// the reload is accepted, approaching 1_000_000 just before it
    /// completes), or `None` when the weapon is not reloading. It is
    /// read from the same timer that completes the reload.
    pub fn reload_progress(&self) -> (progress: Option<u32>)
        ensures
            progress == self@.spec_reload_progress(),
            progress matches Some(p) ==> p < 1_000_000,
    {
        proof {
            use_type_invariant(self);
        }
        if self.state != WeaponState::Reload {
            return None;
        }
        Some((self.state_elapsed * 5 / 4) as u32)
    }

    /// Tries to fire: accepted only from `Idle`, once the cooldown is
    /// over, with ammunition in the magazine; then one round leaves the
    /// magazine, the weapon enters `Fire` and the cooldown restarts.
    /// A rejected shot changes nothing.
    pub fn try_fire(&mut self) -> (accepted: bool)
        ensures
            accepted == old(self)@.can_fire(),
            accepted ==> final(self)@ == old(self)@.fired(),
            !accepted ==> final(self)@ == old(self)@,
            final(self)@.valid(),
    {
        proof {
            use_type_invariant(&*self);
        }
        if self.state != WeaponState::Idle || self.cooldown_remaining > 0 {
            return false;
        }
        if self.magazine == 0 {
            return false;
        }
        *self = Weapon {
            state: WeaponState::Fire,
            state_elapsed: 0,
            cooldown_remaining: FIRE_COOLDOWN_US,
            magazine: self.magazine - 1,
            reserve: self.reserve,
            tier: self.tier,
        };
        true
    }

    /// Tries to start a reload: accepted only from `Idle`, with the
    /// magazine not full and ammunition in reserve. No ammunition moves
    /// now: it moves when the reload completes in `update`, so an
    /// interrupted reload never gives free ammunition. A rejected
    /// request changes nothing (a reload in progress keeps its timer).
    pub fn try_start_reload(&mut self) -> (accepted: bool)
        ensures
            accepted == old(self)@.can_reload(),
            accepted ==> final(self)@ == old(self)@.reloading(),
            !accepted ==> final(self)@ == old(self)@,
            final(self)@.valid(),
    {
        proof {
            use_type_invariant(&*self);
        }
        if self.state != WeaponState::Idle {
            return false;
        }
        if self.magazine >= MAGAZINE_CAPACITY || self.reserve == 0 {
            return false;
        }
        self.state = WeaponState::Reload;
        true
    }

    /// Adds up to `amount` rounds to the reserve without exceeding
    /// `MAX_RESERVE_AMMO`, and returns how many were really added. The
    /// magazine is never touched.
    pub fn add_reserve_ammo(&mut self, amount: u32) -> (added: u32)
        ensures
            added == if amount <= MAX_RESERVE_AMMO - old(self)@.reserve {
                amount as int
            } else {
                MAX_RESERVE_AMMO - old(self)@.reserve
            },
            final(self)@ == (WeaponView { reserve: (old(self)@.reserve + added) as u32, ..old(self)@ }),
            final(self)@.valid(),
    {
        proof {
            use_type_invariant(&*self);
        }
        let room = MAX_RESERVE_AMMO - self.reserve;
        let added = if amount <= room { amount } else { room };
        self.reserve = self.reserve + added;
        added
    }

    /// Advances the weapon by `delta_us` microseconds of game time (see
    /// `WeaponView::advanced`). A zero step changes nothing.
    pub fn update(&mut self, delta_us: u64)
        ensures
            final(self)@ == old(self)@.advanced(delta_us as int),
            final(self)@.valid(),
    {
        proof {
            use_type_invariant(&*self);
        }
        if delta_us == 0 {
            return;
        }
        let cooldown = if self.cooldown_remaining > delta_us { self.cooldown_remaining - delta_us } else { 0 };
        let mut state = self.state;
        let mut elapsed = self.state_elapsed;
        let mut magazine = self.magazine;
        let mut reserve = self.reserve;
        match self.state {
            WeaponState::Idle => {},
            WeaponState::Fire => {
                let left = FIRE_DURATION_US - elapsed;
                if delta_us < left {
                    elapsed = elapsed + delta_us;
                } else if delta_us - left < RECOIL_DURATION_US {
                    state = WeaponState::Recoil;
                    elapsed = delta_us - left;
                } else {
                    state = WeaponState::Idle;
                    elapsed = 0;
                }
            },
            WeaponState::Recoil => {
                let left = RECOIL_DURATION_US - elapsed;
                if delta_us < left {
                    elapsed = elapsed + delta_us;
                } else {
                    state = WeaponState::Idle;
                    elapsed = 0;
                }
            },
            WeaponState::Reload => {
                let left = RELOAD_DURATION_US - elapsed;
                if delta_us < left {
                    elapsed = elapsed + delta_us;
                } else {
                    let needed = MAGAZINE_CAPACITY - magazine;
                    let loaded = if needed <= reserve { needed } else { reserve };
                    magazine = magazine + loaded;
                    reserve = reserve - loaded;
                    state = WeaponState::Idle;
                    elapsed = 0;
                }
            },
        }
        *self = Weapon {
            state,
            state_elapsed: elapsed,
            cooldown_remaining: cooldown,
            magazine,
            reserve,
            tier: self.tier,
        };
    }
}

/// Advancing never creates or destroys ammunition: a completed reload
/// only moves rounds from the reserve to the magazine, and the limits of
/// both are kept.
pub proof fn lemma_advance_keeps_ammunition(w: WeaponView, dt: int)
    requires
        w.valid(),
        dt >= 0,
    ensures
        w.advanced(dt).total_ammo() == w.total_ammo(),
        w.advanced(dt).valid(),
        w.advanced(dt).tier == w.tier,
{
}

/// Game time is additive: advancing by `a` and then by `b` gives the same
/// weapon as advancing once by `a + b`, so many small frames add up to
/// one large frame and no fractional time is lost between states.
pub proof fn lemma_advance_is_additive(w: WeaponView, a: int, b: int)
    requires
        w.valid(),
        a >= 0,
        b >= 0,
    ensures
        w.advanced(a).advanced(b) == w.advanced(a + b),
{
}

/// A zero step leaves a weapon unchanged.
pub proof fn lemma_advance_by_zero(w: WeaponView)
    requires
        w.valid(),
    ensures
        w.advanced(0) == w,
{
}

/// Every accepted shot consumes exactly one round of the magazine, and
/// no shot is accepted with an empty magazine, during a reload or
/// before the cooldown is over.
pub proof fn lemma_shot_costs_one_round(w: WeaponView)
    requires
        w.valid(),
    ensures
        w.can_fire() ==> w.fired().total_ammo() == w.total_ammo() - 1 && w.fired().valid(),
        w.magazine == 0 || w.state == WeaponState::Reload || w.cooldown > 0 ==> !w.can_fire(),
{
}

/// A reload that runs to completion fills the magazine as far as the
/// reserve allows: afterwards either the magazine is full or the reserve
/// is empty.
pub proof fn lemma_completed_reload_fills_magazine(w: WeaponView)
    requires
        w.valid(),
        w.can_reload(),
    ensures
        ({
            let done = w.reloading().advanced(RELOAD_DURATION_US as int);
            &&& done.state == WeaponState::Idle
            &&& done.magazine == MAGAZINE_CAPACITY || done.reserve == 0
            &&& done.total_ammo() == w.total_ammo()
        }),
{
}

} // verus!
