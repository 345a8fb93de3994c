use vstd::prelude::*;

verus! {

/// High-level states of the application.
#[derive(Debug, Clone, Copy, PartialEq, Eq, Structural)]
pub enum GameState {
    Welcome,
    LevelSelect,
    Playing,
    Victory,
    /// The same `Playing` session frozen exactly where it was. Reached
    /// only from `Playing`, by ESC; it leads back only to `Playing`
    /// (ESC or CONTINUE) or to `Welcome` (EXIT TO MENU).
    Paused,
    /// The player's health reached zero during `Playing`. The dead
    /// session is never updated again: only a new session (RETRY) or
    /// `Welcome` (MAIN MENU) follows.
    Defeat,
}

impl GameState {
    /// The state that follows `self` when the goal condition is
    /// `reached_goal`: only `Playing` with the goal reached moves on.
    pub open spec fn spec_after_goal_check(self, reached_goal: bool) -> GameState {
        if self == GameState::Playing && reached_goal {
            GameState::Victory
        } else {
            self
        }
    }

    /// The state that follows `self` when the player has `health`
    /// points left: only `Playing` with `health <= 0` moves on.
    pub open spec fn spec_after_health_check(self, health: i32) -> GameState {
        if self == GameState::Playing && health <= 0 {
            GameState::Defeat
        } else {
            self
        }
    }

    /// Terminal resolution of one `Playing` frame: defeat wins over
    /// victory when both conditions hold in the same frame.
    pub open spec fn spec_resolve_playing_terminal_state(
        self,
        health: i32,
        reached_goal: bool,
    ) -> GameState {
        self.spec_after_health_check(health).spec_after_goal_check(reached_goal)
    }

    /// Transition rule for a reached goal: only `Playing` with
    /// `reached_goal == true` advances to `Victory`; every other state
    /// stays as it is.
    pub fn after_goal_check(self, reached_goal: bool) -> (next: Self)
        ensures
            next == self.spec_after_goal_check(reached_goal),
    {
        match (self, reached_goal) {
            (GameState::Playing, true) => GameState::Victory,
            _ => self,
        }
    }

    /// Transition rule for the player's health: only `Playing` with
    /// `health <= 0` advances to `Defeat`; every other state stays as it
    /// is, and positive health never causes a transition.
    pub fn after_health_check(self, health: i32) -> (next: Self)
        ensures
            next == self.spec_after_health_check(health),
    {
        match (self, health <= 0) {
            (GameState::Playing, true) => GameState::Defeat,
            _ => self,
        }
    }

    /// The single terminal-resolution rule of a `Playing` frame: the
    /// health rule first, then the goal rule, so that a dead player
    /// never reaches `Victory`.
    pub fn resolve_playing_terminal_state(self, health: i32, reached_goal: bool) -> (next: Self)
        ensures
            next == self.spec_resolve_playing_terminal_state(health, reached_goal),
            self == GameState::Playing && health <= 0 ==> next == GameState::Defeat,
            self == GameState::Playing && health > 0 && reached_goal ==> next == GameState::Victory,
            self == GameState::Playing && health > 0 && !reached_goal ==> next == GameState::Playing,
            self != GameState::Playing ==> next == self,
    {
        self.after_health_check(health).after_goal_check(reached_goal)
    }
}

/// Defeat always takes precedence over victory: whenever the health has
/// reached zero, resolving a frame never produces `Victory`, whatever the
/// goal condition says.
pub proof fn lemma_defeat_precedes_victory(state: GameState, health: i32, reached_goal: bool)
    requires
        health <= 0,
    ensures
        state.spec_resolve_playing_terminal_state(health, reached_goal) != GameState::Victory
            || state == GameState::Victory,
{
}

/// Every state other than `Playing` is a fixed point of all three
/// transition rules, whatever health and goal condition are reported.
pub proof fn lemma_only_playing_transitions(state: GameState, health: i32, reached_goal: bool)
    requires
        state != GameState::Playing,
    ensures
        state.spec_after_goal_check(reached_goal) == state,
        state.spec_after_health_check(health) == state,
        state.spec_resolve_playing_terminal_state(health, reached_goal) == state,
{
}

/// Resolving a frame lands in a state that a second resolution with the
/// same inputs leaves unchanged.
pub proof fn lemma_resolution_is_idempotent(state: GameState, health: i32, reached_goal: bool)
    ensures
        ({
            let once = state.spec_resolve_playing_terminal_state(health, reached_goal);
            once.spec_resolve_playing_terminal_state(health, reached_goal) == once
        }),
{
}

} // verus!
