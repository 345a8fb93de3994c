use vstd::prelude::*;

verus! {

/// Game mode chosen for a session: `Portal` is the traditional game with
/// an active goal portal; `Horde` replaces the portal with the Dealer
/// Hands progression.
#[derive(Debug, Clone, Copy, PartialEq, Eq, Structural)]
pub enum GameMode {
    Portal,
    Horde,
}

impl GameMode {
    /// The other mode.
    pub open spec fn spec_toggled(self) -> GameMode {
        match self {
            GameMode::Portal => GameMode::Horde,
            GameMode::Horde => GameMode::Portal,
        }
    }

    /// The other mode: with only two variants, "previous" and "next" are
    /// the same alternation.
    pub fn toggled(self) -> (other: Self)
        ensures
            other == self.spec_toggled(),
            other != self,
    {
        match self {
            GameMode::Portal => GameMode::Horde,
            GameMode::Horde => GameMode::Portal,
        }
    }

    /// Upper-case presentation label of the mode.
    pub fn label(self) -> (text: &'static str)
        ensures
            self == GameMode::Portal ==> text@ == "PORTAL"@,
            self == GameMode::Horde ==> text@ == "HORDE"@,
    {
        match self {
            GameMode::Portal => "PORTAL",
            GameMode::Horde => "HORDE",
        }
    }
}

impl Default for GameMode {
    /// Portal is the traditional game and the mode selected until the
    /// player picks another one.
    fn default() -> (mode: Self)
        ensures
            mode == GameMode::Portal,
    {
        GameMode::Portal
    }
}

/// Toggling twice gives back the mode it started from.
pub proof fn lemma_toggled_is_an_involution(mode: GameMode)
    ensures
        mode.spec_toggled().spec_toggled() == mode,
        mode.spec_toggled() != mode,
{
}

/// The two labels are distinct.
pub proof fn lemma_labels_are_distinct()
    ensures
        "PORTAL"@ != "HORDE"@,
{
    reveal_strlit("PORTAL");
    reveal_strlit("HORDE");
    assert("PORTAL"@[0] != "HORDE"@[0]);
}

} // verus!
