//! The player's health: the only place where it is lowered or raised.

use vstd::prelude::*;

verus! {

/// Maximum and initial health of the player.
pub const PLAYER_MAX_HEALTH: i32 = 100;

/// The player's health, always within `0..=PLAYER_MAX_HEALTH`.
pub struct PlayerHealth {
    health: i32,
}

impl View for PlayerHealth {
    type V = int;

    closed spec fn view(&self) -> int {
        self.health as int
    }
}

impl PlayerHealth {
    #[verifier::type_invariant]
    spec fn inv(self) -> bool {
        0 <= self.health <= PLAYER_MAX_HEALTH
    }

    /// Full health.
    pub fn new() -> (h: Self)
        ensures
            h@ == PLAYER_MAX_HEALTH,
    {
        PlayerHealth { health: PLAYER_MAX_HEALTH }
    }

    /// Remaining health.
    pub fn health(&self) -> (health: i32)
        ensures
            health == self@,
            0 <= health <= PLAYER_MAX_HEALTH,
    {
        proof {
            use_type_invariant(self);
        }
        self.health
    }

    /// Applies `amount` damage, never going below zero, and returns the
    /// damage really absorbed. A non-positive `amount` does nothing.
    /// Examples: 100 - 10 -> 90 (returns 10); 5 - 10 -> 0 (returns 5);
    /// 0 - 10 -> 0 (returns 0).
    pub fn apply_damage(&mut self, amount: i32) -> (applied: i32)
        ensures
            amount <= 0 ==> final(self)@ == old(self)@ && applied == 0,
            amount > 0 ==> final(self)@ == if old(self)@ > amount { old(self)@ - amount } else { 0 },
            applied == old(self)@ - final(self)@,
            0 <= final(self)@ <= PLAYER_MAX_HEALTH,
    {
        proof {
            use_type_invariant(&*self);
        }
        if amount <= 0 {
            return 0;
        }
        let before = self.health;
        self.health = if self.health > amount { self.health - amount } else { 0 };
        before - self.health
    }

    /// Restores up to `amount` health, never above `PLAYER_MAX_HEALTH`,
    /// and returns the health really restored. A non-positive `amount`
    /// does nothing. Examples: 60 + 20 -> 80 (returns 20); 90 + 20 ->
    /// 100 (returns 10); 100 + 20 -> 100 (returns 0).
    pub fn heal(&mut self, amount: i32) -> (applied: i32)
        ensures
            amount <= 0 ==> final(self)@ == old(self)@ && applied == 0,
            amount > 0 ==> final(self)@ == if old(self)@ + amount < PLAYER_MAX_HEALTH {
                old(self)@ + amount
            } else {
                PLAYER_MAX_HEALTH as int
            },
            applied == final(self)@ - old(self)@,
            0 <= final(self)@ <= PLAYER_MAX_HEALTH,
    {
        proof {
            use_type_invariant(&*self);
        }
        if amount <= 0 {
            return 0;
        }
        let before = self.health;
        self.health = if amount < PLAYER_MAX_HEALTH - self.health { self.health + amount } else { PLAYER_MAX_HEALTH };
        self.health - before
    }
}

} // verus!
