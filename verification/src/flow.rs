//! The screen flow of the game: what one frame of play decides before and
//! after the world moves, which sounds its events ask for, and how the
//! level selection, pause, victory and defeat menus answer their input.
//! Reading the keys and the mouse, and carrying out the result (starting a
//! run, playing a sound), is the application's part.

use vstd::prelude::*;

use crate::audio::SoundEffect;
use crate::mode::GameMode;
use crate::state::GameState;

verus! {

/// The menu input of one frame.
#[derive(Debug, Clone, Copy)]
pub struct MenuInput {
    pub escape: bool,
    pub up: bool,
    pub down: bool,
    pub left: bool,
    pub right: bool,
    pub enter: bool,
    /// The menu row under the mouse, if any.
    pub hovered: Option<usize>,
    pub mouse_moved: bool,
    pub clicked: bool,
}

/// Rows of the pause menu: CONTINUE, EXIT TO MENU.
pub const PAUSE_MENU_ROWS: usize = 2;

/// The rows of the victory and defeat menus.
#[derive(Debug, Clone, Copy, PartialEq, Eq, Structural)]
pub enum FinishedAction {
    NextLevel,
    Retry,
    MainMenu,
}

impl FinishedAction {
    /// Upper-case label of the row.
    pub fn label(self) -> (text: &'static str)
        ensures
            self == FinishedAction::NextLevel ==> text@ == "NEXT LEVEL"@,
            self == FinishedAction::Retry ==> text@ == "RETRY"@,
            self == FinishedAction::MainMenu ==> text@ == "MAIN MENU"@,
    {
        match self {
            FinishedAction::NextLevel => "NEXT LEVEL",
            FinishedAction::Retry => "RETRY",
            FinishedAction::MainMenu => "MAIN MENU",
        }
    }
}

/// What a menu asks the application to do.
#[derive(Debug, Clone, Copy, PartialEq, Eq, Structural)]
pub enum MenuCommand {
    /// Nothing: the menu stays open.
    Stay,
    /// Go back to the paused run.
    Resume,
    /// Leave the run for the welcome screen.
    ExitToMenu,
    /// Start the next level of the catalogue.
    NextLevel,
    /// Start the same level again with a new session.
    Retry,
}

/// Whether the hovered row is a row of a menu of `count` rows.
pub open spec fn hovers_a_row(input: MenuInput, count: usize) -> bool {
    input.hovered matches Some(row) && row < count
}

/// Up/down navigation over `count` rows, stopping at either end; a row
/// under the mouse is selected when the mouse moved or clicked. The
/// selection is confirmed by ENTER or by a click on a row.
pub open spec fn spec_menu_navigate(selected: usize, count: usize, input: MenuInput) -> (usize, bool) {
    if count == 0 {
        (selected, false)
    } else {
        let start = if selected < count { selected } else { (count - 1) as usize };
        let after_up = if input.up && start > 0 { (start - 1) as usize } else { start };
        let after_down = if input.down && after_up + 1 < count { (after_up + 1) as usize } else { after_up };
        let row = if hovers_a_row(input, count) && (input.mouse_moved || input.clicked) {
            input.hovered.unwrap()
        } else {
            after_down
        };
        (row, input.enter || (input.clicked && hovers_a_row(input, count)))
    }
}

/// The row the keys alone select: the selection (or the last row when it
/// is past the end) moved one row up on UP when not at the top, then one
/// row down on DOWN when not at the bottom.
pub open spec fn keyboard_row(selected: usize, count: usize, input: MenuInput) -> int {
    let start: int = if selected < count { selected as int } else { count - 1 };
    let after_up: int = if input.up && start > 0 { start - 1 } else { start };
    if input.down && after_up + 1 < count { after_up + 1 } else { after_up }
}

/// A mouse that neither moved nor clicked leaves the selection to the
/// keys, whatever row it rests over; a mouse that moved or clicked over
/// a row selects that row. The selection is confirmed exactly by ENTER
/// or by a click over a row.
pub proof fn lemma_resting_mouse_leaves_the_keys_in_charge(selected: usize, count: usize, input: MenuInput)
    requires
        count > 0,
    ensures
        !input.mouse_moved && !input.clicked ==> spec_menu_navigate(selected, count, input).0 == keyboard_row(
            selected,
            count,
            input,
        ),
        (input.mouse_moved || input.clicked) && (input.hovered matches Some(row) && row < count)
            ==> spec_menu_navigate(selected, count, input).0 == input.hovered.unwrap(),
        (input.mouse_moved || input.clicked) && !(input.hovered matches Some(row) && row < count)
            ==> spec_menu_navigate(selected, count, input).0 == keyboard_row(selected, count, input),
        spec_menu_navigate(selected, count, input).1 == (input.enter || (input.clicked && (input.hovered matches Some(
            row,
        ) && row < count))),
{
}

/// See `spec_menu_navigate`.
pub fn menu_navigate(selected: usize, count: usize, input: MenuInput) -> (out: (usize, bool))
    ensures
        out == spec_menu_navigate(selected, count, input),
        count > 0 ==> out.0 < count,
        count == 0 ==> !out.1,
        count > 0 && !input.mouse_moved && !input.clicked ==> out.0 == keyboard_row(selected, count, input),
{
    proof {
        if count > 0 {
            lemma_resting_mouse_leaves_the_keys_in_charge(selected, count, input);
        }
    }
    if count == 0 {
        return (selected, false);
    }
    let start = if selected < count { selected } else { count - 1 };
    let after_up = if input.up && start > 0 { start - 1 } else { start };
    let after_down = if input.down && after_up + 1 < count { after_up + 1 } else { after_up };
    let on_row = match input.hovered {
        Some(row) => row < count,
        None => false,
    };
    let row = if on_row && (input.mouse_moved || input.clicked) {
        match input.hovered {
            Some(row) => row,
            None => after_down,
        }
    } else {
        after_down
    };
    (row, input.enter || (input.clicked && on_row))
}

/// The rows of the victory or defeat menu: NEXT LEVEL only after a
/// victory with a level left, then RETRY and MAIN MENU.
pub open spec fn spec_finished_actions(state: GameState, has_next_level: bool) -> Seq<FinishedAction> {
    if state == GameState::Victory && has_next_level {
        seq![FinishedAction::NextLevel, FinishedAction::Retry, FinishedAction::MainMenu]
    } else {
        seq![FinishedAction::Retry, FinishedAction::MainMenu]
    }
}

/// See `spec_finished_actions`.
pub fn finished_actions(state: GameState, has_next_level: bool) -> (actions: Vec<FinishedAction>)
    ensures
        actions@ == spec_finished_actions(state, has_next_level),
{
    let mut actions = Vec::new();
    if state == GameState::Victory && has_next_level {
        actions.push(FinishedAction::NextLevel);
    }
    actions.push(FinishedAction::Retry);
    actions.push(FinishedAction::MainMenu);
    proof {
        if state == GameState::Victory && has_next_level {
            assert(actions@ =~= seq![FinishedAction::NextLevel, FinishedAction::Retry, FinishedAction::MainMenu]);
        } else {
            assert(actions@ =~= seq![FinishedAction::Retry, FinishedAction::MainMenu]);
        }
    }
    actions
}

/// The state a menu command leads to from `state`.
pub open spec fn command_target(state: GameState, command: MenuCommand) -> GameState {
    match command {
        MenuCommand::Stay => state,
        MenuCommand::Resume => GameState::Playing,
        MenuCommand::ExitToMenu => GameState::Welcome,
        MenuCommand::NextLevel => GameState::Playing,
        MenuCommand::Retry => GameState::Playing,
    }
}

/// The command of a victory or defeat row.
pub open spec fn finished_command(action: FinishedAction) -> MenuCommand {
    match action {
        FinishedAction::NextLevel => MenuCommand::NextLevel,
        FinishedAction::Retry => MenuCommand::Retry,
        FinishedAction::MainMenu => MenuCommand::ExitToMenu,
    }
}

/// How the pause, victory and defeat menus answer one frame of input
/// with row `selected`: the new row and the command. In the pause menu
/// ESC resumes at once; otherwise a confirmed row resumes (CONTINUE) or
/// leaves for the welcome screen (EXIT TO MENU). In the victory and
/// defeat menus a confirmed row starts the next level, restarts the same
/// level, or leaves for the welcome screen. Any other state has no menu.
pub open spec fn spec_menu_answer(state: GameState, input: MenuInput, selected: usize, has_next_level: bool) -> (
    usize,
    MenuCommand,
) {
    if state == GameState::Paused {
        if input.escape {
            (selected, MenuCommand::Resume)
        } else {
            let (row, confirmed) = spec_menu_navigate(selected, PAUSE_MENU_ROWS, input);
            if !confirmed {
                (row, MenuCommand::Stay)
            } else if row == 0 {
                (row, MenuCommand::Resume)
            } else {
                (row, MenuCommand::ExitToMenu)
            }
        }
    } else if state == GameState::Victory || state == GameState::Defeat {
        let actions = spec_finished_actions(state, has_next_level);
        let (row, confirmed) = spec_menu_navigate(selected, actions.len() as usize, input);
        if confirmed {
            (row, finished_command(actions[row as int]))
        } else {
            (row, MenuCommand::Stay)
        }
    } else {
        (selected, MenuCommand::Stay)
    }
}

/// One frame of the pause, victory or defeat menu: the state it leads to
/// (when the command is carried out), the new row and the command.
pub fn menu_transition(state: GameState, input: MenuInput, selected: usize, has_next_level: bool) -> (out: (
    GameState,
    usize,
    MenuCommand,
))
    ensures
        (out.1, out.2) == spec_menu_answer(state, input, selected, has_next_level),
        out.0 == command_target(state, out.2),
{
    match state {
        GameState::Paused => {
            if input.escape {
                return (GameState::Playing, selected, MenuCommand::Resume);
            }
            let (row, confirmed) = menu_navigate(selected, PAUSE_MENU_ROWS, input);
            if !confirmed {
                (state, row, MenuCommand::Stay)
            } else if row == 0 {
                (GameState::Playing, row, MenuCommand::Resume)
            } else {
                (GameState::Welcome, row, MenuCommand::ExitToMenu)
            }
        },
        GameState::Victory | GameState::Defeat => {
            let actions = finished_actions(state, has_next_level);
            let (row, confirmed) = menu_navigate(selected, actions.len(), input);
            if !confirmed {
                return (state, row, MenuCommand::Stay);
            }
            match actions[row] {
                FinishedAction::NextLevel => (GameState::Playing, row, MenuCommand::NextLevel),
                FinishedAction::Retry => (GameState::Playing, row, MenuCommand::Retry),
                FinishedAction::MainMenu => (GameState::Welcome, row, MenuCommand::ExitToMenu),
            }
        },
        _ => (state, selected, MenuCommand::Stay),
    }
}

/// One frame of the level selection over `count` levels: ESC goes back to
/// the welcome screen at once, with nothing else changed and nothing
/// started. Otherwise LEFT and RIGHT each switch the mode (both together
/// cancel out), UP/DOWN and the mouse move the selection, and ENTER or a
/// click on a row asks to start the selected level. The result is the
/// state, the selected level, the mode and whether to start.
pub open spec fn spec_level_select_step(selected: usize, mode: GameMode, count: usize, input: MenuInput) -> (
    GameState,
    usize,
    GameMode,
    bool,
) {
    if input.escape {
        (GameState::Welcome, selected, mode, false)
    } else {
        let next_mode = if input.left != input.right { mode.spec_toggled() } else { mode };
        let (row, confirmed) = spec_menu_navigate(selected, count, input);
        (GameState::LevelSelect, row, next_mode, confirmed)
    }
}

/// See `spec_level_select_step`.
pub fn level_select_step(selected: usize, mode: GameMode, count: usize, input: MenuInput) -> (out: (
    GameState,
    usize,
    GameMode,
    bool,
))
    ensures
        out == spec_level_select_step(selected, mode, count, input),
        input.escape ==> out == (GameState::Welcome, selected, mode, false),
        out.3 ==> !input.escape && count > 0 && out.1 < count,
{
    if input.escape {
        return (GameState::Welcome, selected, mode, false);
    }
    let next_mode = if input.left != input.right { mode.toggled() } else { mode };
    let (row, confirmed) = menu_navigate(selected, count, input);
    (GameState::LevelSelect, row, next_mode, confirmed)
}

/// The start of one frame of play: ESC pauses before anything else
/// happens; otherwise a player already without health is defeated before
/// moving. Only `Playing` moves on.
pub open spec fn spec_playing_frame_start(state: GameState, escape_pressed: bool, health: i32) -> GameState {
    if state != GameState::Playing {
        state
    } else if escape_pressed {
        GameState::Paused
    } else {
        state.spec_after_health_check(health)
    }
}

/// See `spec_playing_frame_start`. When the result is not `Playing`, the
/// frame ends there and the session is left untouched.
pub fn playing_frame_start(state: GameState, escape_pressed: bool, health: i32) -> (next: GameState)
    ensures
        next == spec_playing_frame_start(state, escape_pressed, health),
        state == GameState::Playing && escape_pressed ==> next == GameState::Paused,
        state == GameState::Playing && !escape_pressed ==> next == state.spec_after_health_check(health),
        state != GameState::Playing ==> next == state,
{
    if state != GameState::Playing {
        state
    } else if escape_pressed {
        GameState::Paused
    } else {
        state.after_health_check(health)
    }
}

/// Whether the goal or the Hands end a run of `mode`: the goal counts
/// only in Portal mode (Horde replaces the portal), and a Horde is won
/// by completing it.
pub open spec fn spec_run_won(mode: GameMode, on_goal_cell: bool, horde_completed: bool) -> bool {
    (mode == GameMode::Portal && on_goal_cell) || horde_completed
}

/// The end of one frame of play, after the attacks of the frame: defeat
/// first, then victory.
pub fn playing_frame_end(
    state: GameState,
    health: i32,
    mode: GameMode,
    on_goal_cell: bool,
    horde_completed: bool,
) -> (next: GameState)
    ensures
        next == state.spec_resolve_playing_terminal_state(
            health,
            spec_run_won(mode, on_goal_cell, horde_completed),
        ),
{
    let won = (mode == GameMode::Portal && on_goal_cell) || horde_completed;
    state.resolve_playing_terminal_state(health, won)
}

/// Whether the Hands advance in a run of `mode`: only in Horde mode.
pub fn advances_hands(mode: GameMode) -> (b: bool)
    ensures
        b == (mode == GameMode::Horde),
{
    mode == GameMode::Horde
}

/// What happened in one frame of play that has a sound.
#[derive(Debug, Clone, Copy)]
pub struct FrameEvents {
    pub ammo_collected: usize,
    pub health_collected: usize,
    pub royal_flush_collected: bool,
    pub reloaded: bool,
    /// Enemies that noticed the player.
    pub alerted: usize,
    /// Enemies that lost track of the player.
    pub calmed: usize,
    /// Damage the player took.
    pub damage: i32,
    pub king_attacked: bool,
    pub king_spawned: bool,
}

/// `n` times `sound`.
pub open spec fn repeated(sound: SoundEffect, n: nat) -> Seq<SoundEffect> {
    Seq::new(n, |i: int| sound)
}

/// `sound` once when `happened`, else nothing.
pub open spec fn sound_if(happened: bool, sound: SoundEffect) -> Seq<SoundEffect> {
    if happened {
        seq![sound]
    } else {
        Seq::empty()
    }
}

/// The pickup sounds hold only pickup sounds, and each kind exactly when
/// such a pickup was collected.
proof fn lemma_pickup_sounds(e: FrameEvents, pickups: Seq<SoundEffect>)
    requires
        pickups == repeated(SoundEffect::AmmoPickup, e.ammo_collected as nat) + repeated(
            SoundEffect::HealthPickup,
            e.health_collected as nat,
        ),
    ensures
        forall|x: SoundEffect| #[trigger]
            pickups.contains(x) ==> x == SoundEffect::AmmoPickup || x == SoundEffect::HealthPickup,
        pickups.contains(SoundEffect::AmmoPickup) <==> e.ammo_collected > 0,
        pickups.contains(SoundEffect::HealthPickup) <==> e.health_collected > 0,
{
    assert forall|i: int| 0 <= i < pickups.len() implies #[trigger] pickups[i] == SoundEffect::AmmoPickup || pickups[i]
        == SoundEffect::HealthPickup by {
        if i < e.ammo_collected {
            assert(pickups[i] == repeated(SoundEffect::AmmoPickup, e.ammo_collected as nat)[i]);
        } else {
            assert(pickups[i] == repeated(SoundEffect::HealthPickup, e.health_collected as nat)[i
                - e.ammo_collected]);
        }
    }
    assert forall|x: SoundEffect| #[trigger] pickups.contains(x) implies x == SoundEffect::AmmoPickup || x
        == SoundEffect::HealthPickup by {
        let k = choose|k: int| 0 <= k < pickups.len() && pickups[k] == x;
        assert(pickups[k] == SoundEffect::AmmoPickup || pickups[k] == SoundEffect::HealthPickup);
    }
    if e.ammo_collected > 0 {
        assert(pickups[0] == repeated(SoundEffect::AmmoPickup, e.ammo_collected as nat)[0]);
        assert(pickups.contains(pickups[0]));
    }
    if e.health_collected > 0 {
        let j = e.ammo_collected as int;
        assert(pickups[j] == repeated(SoundEffect::HealthPickup, e.health_collected as nat)[0]);
        assert(pickups.contains(pickups[j]));
    }
    if pickups.contains(SoundEffect::AmmoPickup) {
        let k = choose|k: int| 0 <= k < pickups.len() && pickups[k] == SoundEffect::AmmoPickup;
        if k >= e.ammo_collected {
            assert(pickups[k] == repeated(SoundEffect::HealthPickup, e.health_collected as nat)[k
                - e.ammo_collected]);
        }
    }
    if pickups.contains(SoundEffect::HealthPickup) {
        let k = choose|k: int| 0 <= k < pickups.len() && pickups[k] == SoundEffect::HealthPickup;
        if k < e.ammo_collected {
            assert(pickups[k] == repeated(SoundEffect::AmmoPickup, e.ammo_collected as nat)[k]);
        }
    }
}

/// Each event sound is in the frame's sounds exactly when its event
/// happened, given how each step appended it.
proof fn lemma_event_sounds_present(
    e: FrameEvents,
    pickups: Seq<SoundEffect>,
    s1: Seq<SoundEffect>,
    s2: Seq<SoundEffect>,
    s3: Seq<SoundEffect>,
    s4: Seq<SoundEffect>,
    s5: Seq<SoundEffect>,
    s6: Seq<SoundEffect>,
    s7: Seq<SoundEffect>,
)
    requires
        forall|x: SoundEffect| #[trigger]
            pickups.contains(x) ==> x == SoundEffect::AmmoPickup || x == SoundEffect::HealthPickup,
        pickups.contains(SoundEffect::AmmoPickup) <==> e.ammo_collected > 0,
        pickups.contains(SoundEffect::HealthPickup) <==> e.health_collected > 0,
        forall|x: SoundEffect| #[trigger]
            s1.contains(x) <==> pickups.contains(x) || (e.royal_flush_collected && x == SoundEffect::RoyalFlushPickup),
        forall|x: SoundEffect| #[trigger] s2.contains(x) <==> s1.contains(x) || (e.reloaded && x == SoundEffect::Reload),
        forall|x: SoundEffect| #[trigger]
            s3.contains(x) <==> s2.contains(x) || (e.alerted > 0 && x == SoundEffect::EnemyAlert),
        forall|x: SoundEffect| #[trigger]
            s4.contains(x) <==> s3.contains(x) || (e.calmed > 0 && x == SoundEffect::EnemyIdle),
        forall|x: SoundEffect| #[trigger]
            s5.contains(x) <==> s4.contains(x) || (e.damage > 0 && x == SoundEffect::PlayerHit),
        forall|x: SoundEffect| #[trigger]
            s6.contains(x) <==> s5.contains(x) || (e.king_attacked && x == SoundEffect::KingAttack),
        forall|x: SoundEffect| #[trigger]
            s7.contains(x) <==> s6.contains(x) || (e.king_spawned && x == SoundEffect::KingSpawn),
    ensures
        s7.contains(SoundEffect::EnemyAlert) <==> e.alerted > 0,
        s7.contains(SoundEffect::EnemyIdle) <==> e.calmed > 0,
        s7.contains(SoundEffect::RoyalFlushPickup) <==> e.royal_flush_collected,
        s7.contains(SoundEffect::Reload) <==> e.reloaded,
        s7.contains(SoundEffect::KingAttack) <==> e.king_attacked,
        s7.contains(SoundEffect::KingSpawn) <==> e.king_spawned,
        s7.contains(SoundEffect::AmmoPickup) <==> e.ammo_collected > 0,
        s7.contains(SoundEffect::HealthPickup) <==> e.health_collected > 0,
{
    assert(s7.contains(SoundEffect::EnemyAlert) == s6.contains(SoundEffect::EnemyAlert));
    assert(s6.contains(SoundEffect::EnemyAlert) == s5.contains(SoundEffect::EnemyAlert));
    assert(s5.contains(SoundEffect::EnemyAlert) == s4.contains(SoundEffect::EnemyAlert));
    assert(s4.contains(SoundEffect::EnemyAlert) == s3.contains(SoundEffect::EnemyAlert));
    assert(s3.contains(SoundEffect::EnemyAlert) <==> s2.contains(SoundEffect::EnemyAlert) || e.alerted > 0);
    assert(s2.contains(SoundEffect::EnemyAlert) == s1.contains(SoundEffect::EnemyAlert));
    assert(s1.contains(SoundEffect::EnemyAlert) == pickups.contains(SoundEffect::EnemyAlert));
    let xs = seq![
        SoundEffect::EnemyIdle,
        SoundEffect::RoyalFlushPickup,
        SoundEffect::Reload,
        SoundEffect::KingAttack,
        SoundEffect::KingSpawn,
        SoundEffect::AmmoPickup,
        SoundEffect::HealthPickup,
    ];
    assert forall|j: int| 0 <= j < xs.len() implies (#[trigger] s7.contains(xs[j]) <==> s6.contains(xs[j]) || (
    e.king_spawned && xs[j] == SoundEffect::KingSpawn)) && (s6.contains(xs[j]) <==> s5.contains(xs[j]) || (
    e.king_attacked && xs[j] == SoundEffect::KingAttack)) && (s5.contains(xs[j]) <==> s4.contains(xs[j]) || (e.damage
        > 0 && xs[j] == SoundEffect::PlayerHit)) && (s4.contains(xs[j]) <==> s3.contains(xs[j]) || (e.calmed > 0
        && xs[j] == SoundEffect::EnemyIdle)) && (s3.contains(xs[j]) <==> s2.contains(xs[j]) || (e.alerted > 0
        && xs[j] == SoundEffect::EnemyAlert)) && (s2.contains(xs[j]) <==> s1.contains(xs[j]) || (e.reloaded && xs[j]
        == SoundEffect::Reload)) && (s1.contains(xs[j]) <==> pickups.contains(xs[j]) || (e.royal_flush_collected
        && xs[j] == SoundEffect::RoyalFlushPickup)) by {
    }
    assert(xs[0] == SoundEffect::EnemyIdle);
    assert(xs[1] == SoundEffect::RoyalFlushPickup);
    assert(xs[2] == SoundEffect::Reload);
    assert(xs[3] == SoundEffect::KingAttack);
    assert(xs[4] == SoundEffect::KingSpawn);
    assert(xs[5] == SoundEffect::AmmoPickup);
    assert(xs[6] == SoundEffect::HealthPickup);
}

/// The sounds of a frame of play, in order: one per ammunition pickup
/// collected, one per health pickup collected, then one for each other
/// event that happened.
pub open spec fn spec_frame_sounds(e: FrameEvents) -> Seq<SoundEffect> {
    repeated(SoundEffect::AmmoPickup, e.ammo_collected as nat) + repeated(
        SoundEffect::HealthPickup,
        e.health_collected as nat,
    ) + sound_if(e.royal_flush_collected, SoundEffect::RoyalFlushPickup) + sound_if(e.reloaded, SoundEffect::Reload)
        + sound_if(e.alerted > 0, SoundEffect::EnemyAlert) + sound_if(e.calmed > 0, SoundEffect::EnemyIdle)
        + sound_if(e.damage > 0, SoundEffect::PlayerHit) + sound_if(e.king_attacked, SoundEffect::KingAttack)
        + sound_if(e.king_spawned, SoundEffect::KingSpawn)
}

fn push_if(sounds: &mut Vec<SoundEffect>, happened: bool, sound: SoundEffect)
    ensures
        final(sounds)@ == old(sounds)@ + sound_if(happened, sound),
        final(sounds)@.subrange(0, old(sounds)@.len() as int) == old(sounds)@,
        forall|i: int| old(sounds)@.len() <= i < final(sounds)@.len() ==> final(sounds)@[i] == sound,
        final(sounds)@.len() == old(sounds)@.len() + if happened { 1int } else { 0int },
        forall|x: SoundEffect| #[trigger]
            final(sounds)@.contains(x) <==> old(sounds)@.contains(x) || (happened && x == sound),
{
    if happened {
        sounds.push(sound);
    }
    proof {
        if happened {
            assert(final(sounds)@ =~= old(sounds)@ + seq![sound]);
        } else {
            assert(final(sounds)@ =~= old(sounds)@ + Seq::<SoundEffect>::empty());
        }
        assert(final(sounds)@.subrange(0, old(sounds)@.len() as int) =~= old(sounds)@);
        assert forall|x: SoundEffect| #[trigger]
            final(sounds)@.contains(x) <==> old(sounds)@.contains(x) || (happened && x == sound) by {
            if old(sounds)@.contains(x) {
                let k = choose|k: int| 0 <= k < old(sounds)@.len() && old(sounds)@[k] == x;
                assert(final(sounds)@[k] == x);
            }
            if happened && x == sound {
                assert(final(sounds)@[old(sounds)@.len() as int] == x);
            }
            if final(sounds)@.contains(x) {
                let k = choose|k: int| 0 <= k < final(sounds)@.len() && final(sounds)@[k] == x;
                if k < old(sounds)@.len() {
                    assert(final(sounds)@[k] == old(sounds)@[k]);
                }
            }
        }
    }
}

fn push_repeated(sounds: &mut Vec<SoundEffect>, n: usize, sound: SoundEffect)
    ensures
        final(sounds)@ == old(sounds)@ + repeated(sound, n as nat),
{
    let ghost start = sounds@;
    let mut i: usize = 0;
    while i < n
        invariant
            i <= n,
            sounds@ == start + repeated(sound, i as nat),
        decreases n - i,
    {
        sounds.push(sound);
        i += 1;
        proof {
            assert(sounds@ =~= start + repeated(sound, i as nat));
        }
    }
}

/// The sounds of a frame of play: exactly one ammunition pickup sound per
/// ammunition pickup collected and one health pickup sound per health
/// pickup collected, and the hit sound exactly when the player took
/// damage.
pub fn frame_sounds(events: FrameEvents) -> (s: Vec<SoundEffect>)
    ensures
        s@ == spec_frame_sounds(events),
        forall|i: int| 0 <= i < events.ammo_collected ==> s@[i] == SoundEffect::AmmoPickup,
        forall|i: int|
            events.ammo_collected <= i < events.ammo_collected + events.health_collected ==> s@[i]
                == SoundEffect::HealthPickup,
        forall|i: int|
            events.ammo_collected + events.health_collected <= i < s@.len() ==> s@[i] != SoundEffect::AmmoPickup
                && s@[i] != SoundEffect::HealthPickup,
        s@.len() >= events.ammo_collected + events.health_collected,
        s@.contains(SoundEffect::PlayerHit) <==> events.damage > 0,
        s@.contains(SoundEffect::EnemyAlert) <==> events.alerted > 0,
        s@.contains(SoundEffect::EnemyIdle) <==> events.calmed > 0,
        s@.contains(SoundEffect::RoyalFlushPickup) <==> events.royal_flush_collected,
        s@.contains(SoundEffect::Reload) <==> events.reloaded,
        s@.contains(SoundEffect::KingAttack) <==> events.king_attacked,
        s@.contains(SoundEffect::KingSpawn) <==> events.king_spawned,
        s@.contains(SoundEffect::AmmoPickup) <==> events.ammo_collected > 0,
        s@.contains(SoundEffect::HealthPickup) <==> events.health_collected > 0,
{
    let mut sounds: Vec<SoundEffect> = Vec::new();
    push_repeated(&mut sounds, events.ammo_collected, SoundEffect::AmmoPickup);
    push_repeated(&mut sounds, events.health_collected, SoundEffect::HealthPickup);
    let ghost pickups = sounds@;
    let ghost p = pickups.len() as int;
    proof {
        assert(pickups =~= repeated(SoundEffect::AmmoPickup, events.ammo_collected as nat) + repeated(
            SoundEffect::HealthPickup,
            events.health_collected as nat,
        ));
        assert(p == events.ammo_collected + events.health_collected);
    }
    proof {
        lemma_pickup_sounds(events, pickups);
    }
    push_if(&mut sounds, events.royal_flush_collected, SoundEffect::RoyalFlushPickup);
    let ghost s1 = sounds@;
    push_if(&mut sounds, events.reloaded, SoundEffect::Reload);
    let ghost s2 = sounds@;
    push_if(&mut sounds, events.alerted > 0, SoundEffect::EnemyAlert);
    let ghost s3 = sounds@;
    push_if(&mut sounds, events.calmed > 0, SoundEffect::EnemyIdle);
    proof {
        assert(sounds@.subrange(0, p) == pickups);
        assert(forall|i: int| p <= i < sounds@.len() ==> sounds@[i] != SoundEffect::PlayerHit);
    }
    let ghost before_hit = sounds@;
    push_if(&mut sounds, events.damage > 0, SoundEffect::PlayerHit);
    let ghost after_hit = sounds@;
    push_if(&mut sounds, events.king_attacked, SoundEffect::KingAttack);
    let ghost s6 = sounds@;
    push_if(&mut sounds, events.king_spawned, SoundEffect::KingSpawn);
    proof {
        let e = events;
        lemma_event_sounds_present(e, pickups, s1, s2, s3, before_hit, after_hit, s6, sounds@);
        let a = e.ammo_collected as int;
        let s_all = sounds@;
        assert(s_all =~= spec_frame_sounds(e));
        assert(s_all.subrange(0, p) =~= pickups) by {
            assert forall|i: int| 0 <= i < p implies s_all[i] == pickups[i] by {
                assert(after_hit.subrange(0, before_hit.len() as int)[i] == before_hit[i]);
            }
        }
        assert forall|i: int| 0 <= i < a implies s_all[i] == SoundEffect::AmmoPickup by {
            assert(s_all.subrange(0, p)[i] == pickups[i]);
        }
        assert forall|i: int| a <= i < p implies s_all[i] == SoundEffect::HealthPickup by {
            assert(s_all.subrange(0, p)[i] == pickups[i]);
        }
        if s_all.contains(SoundEffect::PlayerHit) {
            let k = choose|k: int| 0 <= k < s_all.len() && s_all[k] == SoundEffect::PlayerHit;
            if k < p {
                assert(s_all.subrange(0, p)[k] == pickups[k]);
            } else if k < before_hit.len() {
                assert(after_hit.subrange(0, before_hit.len() as int)[k] == before_hit[k]);
            }
        }
        if e.damage > 0 {
            assert(s_all[before_hit.len() as int] == after_hit[before_hit.len() as int]);
        }
    }
    sounds
}

proof fn lemma_append_sound_if(before: Seq<SoundEffect>, happened: bool, sound: SoundEffect)
    ensures
        forall|x: SoundEffect| #[trigger]
            (before + sound_if(happened, sound)).contains(x) <==> before.contains(x) || (happened && x == sound),
{
    let after = before + sound_if(happened, sound);
    assert forall|x: SoundEffect| #[trigger] after.contains(x) <==> before.contains(x) || (happened && x == sound) by {
        if before.contains(x) {
            let k = choose|k: int| 0 <= k < before.len() && before[k] == x;
            assert(after[k] == x);
        }
        if happened && x == sound {
            assert(after[before.len() as int] == x);
        }
        if after.contains(x) {
            let k = choose|k: int| 0 <= k < after.len() && after[k] == x;
            if k < before.len() {
                assert(after[k] == before[k]);
            }
        }
    }
}

/// A frame's sounds follow its events: each event sound is there exactly
/// when its event happened (an enemy noticed the player, one lost track
/// of the player, The Royal Flush was collected, a reload was accepted,
/// the player took damage, The King attacked or entered), and each pickup
/// sound exactly when such a pickup was collected.
pub proof fn lemma_frame_sounds_follow_events(e: FrameEvents)
    ensures
        spec_frame_sounds(e).contains(SoundEffect::EnemyAlert) <==> e.alerted > 0,
        spec_frame_sounds(e).contains(SoundEffect::EnemyIdle) <==> e.calmed > 0,
        spec_frame_sounds(e).contains(SoundEffect::RoyalFlushPickup) <==> e.royal_flush_collected,
        spec_frame_sounds(e).contains(SoundEffect::Reload) <==> e.reloaded,
        spec_frame_sounds(e).contains(SoundEffect::PlayerHit) <==> e.damage > 0,
        spec_frame_sounds(e).contains(SoundEffect::KingAttack) <==> e.king_attacked,
        spec_frame_sounds(e).contains(SoundEffect::KingSpawn) <==> e.king_spawned,
        spec_frame_sounds(e).contains(SoundEffect::AmmoPickup) <==> e.ammo_collected > 0,
        spec_frame_sounds(e).contains(SoundEffect::HealthPickup) <==> e.health_collected > 0,
{
    let pickups = repeated(SoundEffect::AmmoPickup, e.ammo_collected as nat) + repeated(
        SoundEffect::HealthPickup,
        e.health_collected as nat,
    );
    let s1 = pickups + sound_if(e.royal_flush_collected, SoundEffect::RoyalFlushPickup);
    let s2 = s1 + sound_if(e.reloaded, SoundEffect::Reload);
    let s3 = s2 + sound_if(e.alerted > 0, SoundEffect::EnemyAlert);
    let s4 = s3 + sound_if(e.calmed > 0, SoundEffect::EnemyIdle);
    let s5 = s4 + sound_if(e.damage > 0, SoundEffect::PlayerHit);
    let s6 = s5 + sound_if(e.king_attacked, SoundEffect::KingAttack);
    let s7 = s6 + sound_if(e.king_spawned, SoundEffect::KingSpawn);
    assert(s7 == spec_frame_sounds(e));
    lemma_pickup_sounds(e, pickups);
    lemma_append_sound_if(pickups, e.royal_flush_collected, SoundEffect::RoyalFlushPickup);
    lemma_append_sound_if(s1, e.reloaded, SoundEffect::Reload);
    lemma_append_sound_if(s2, e.alerted > 0, SoundEffect::EnemyAlert);
    lemma_append_sound_if(s3, e.calmed > 0, SoundEffect::EnemyIdle);
    lemma_append_sound_if(s4, e.damage > 0, SoundEffect::PlayerHit);
    lemma_append_sound_if(s5, e.king_attacked, SoundEffect::KingAttack);
    lemma_append_sound_if(s6, e.king_spawned, SoundEffect::KingSpawn);
    lemma_event_sounds_present(e, pickups, s1, s2, s3, s4, s5, s6, s7);
    assert(s7.contains(SoundEffect::PlayerHit) <==> s6.contains(SoundEffect::PlayerHit));
    assert(s6.contains(SoundEffect::PlayerHit) <==> s5.contains(SoundEffect::PlayerHit));
    assert(s5.contains(SoundEffect::PlayerHit) <==> s4.contains(SoundEffect::PlayerHit) || e.damage > 0);
    assert(s4.contains(SoundEffect::PlayerHit) <==> s3.contains(SoundEffect::PlayerHit));
    assert(s3.contains(SoundEffect::PlayerHit) <==> s2.contains(SoundEffect::PlayerHit));
    assert(s2.contains(SoundEffect::PlayerHit) <==> s1.contains(SoundEffect::PlayerHit));
    assert(s1.contains(SoundEffect::PlayerHit) <==> pickups.contains(SoundEffect::PlayerHit));
}

/// How many of the one-off events of a frame happened.
pub open spec fn events_happened(e: FrameEvents) -> nat {
    (if e.royal_flush_collected { 1nat } else { 0nat }) + (if e.reloaded { 1nat } else { 0nat }) + (if e.alerted > 0 {
        1nat
    } else {
        0nat
    }) + (if e.calmed > 0 { 1nat } else { 0nat }) + (if e.damage > 0 { 1nat } else { 0nat }) + (if e.king_attacked {
        1nat
    } else {
        0nat
    }) + (if e.king_spawned { 1nat } else { 0nat })
}

/// A frame plays one sound per pickup collected and one per other event
/// that happened, and no more.
pub proof fn lemma_frame_sound_count(e: FrameEvents)
    ensures
        spec_frame_sounds(e).len() == e.ammo_collected + e.health_collected + events_happened(e),
{
}

/// What the rows of the menus do. A command comes only from ENTER, a
/// click, or ESC in the pause menu. In the pause menu ESC and CONTINUE
/// (the first row) resume and EXIT TO MENU (the second) leaves. After a
/// victory with a level left the rows are NEXT LEVEL, RETRY, MAIN MENU;
/// otherwise, and after a defeat, RETRY and MAIN MENU. A defeat never
/// resumes the dead run, and any other screen has no menu.
pub proof fn lemma_menu_rows(state: GameState, input: MenuInput, selected: usize, has_next_level: bool)
    ensures
        ({
            let (row, command) = spec_menu_answer(state, input, selected, has_next_level);
            let in_menu = state == GameState::Paused || state == GameState::Victory || state == GameState::Defeat;
            &&& !in_menu ==> row == selected && command == MenuCommand::Stay
            &&& command != MenuCommand::Stay ==> input.enter || input.clicked || (state == GameState::Paused
                && input.escape)
            &&& state == GameState::Paused && input.escape ==> command == MenuCommand::Resume
            &&& state == GameState::Paused && !input.escape && command != MenuCommand::Stay ==> row < 2 && (command
                == MenuCommand::Resume <==> row == 0) && (command == MenuCommand::ExitToMenu <==> row == 1)
            &&& state == GameState::Victory && has_next_level && command != MenuCommand::Stay ==> row < 3 && (command
                == MenuCommand::NextLevel <==> row == 0) && (command == MenuCommand::Retry <==> row == 1) && (command
                == MenuCommand::ExitToMenu <==> row == 2)
            &&& (state == GameState::Defeat || (state == GameState::Victory && !has_next_level)) && command
                != MenuCommand::Stay ==> row < 2 && (command == MenuCommand::Retry <==> row == 0) && (command
                == MenuCommand::ExitToMenu <==> row == 1)
            &&& state == GameState::Defeat ==> command != MenuCommand::Resume && command != MenuCommand::NextLevel
        }),
{
}

/// In the level selection, without ESC: the mode switches exactly when
/// one of LEFT and RIGHT is pressed but not both, and a level starts
/// only on ENTER or a click on a row, always a row of the catalogue.
pub proof fn lemma_level_select_keys(selected: usize, mode: GameMode, count: usize, input: MenuInput)
    requires
        !input.escape,
    ensures
        ({
            let (state, row, next_mode, start) = spec_level_select_step(selected, mode, count, input);
            &&& state == GameState::LevelSelect
            &&& (next_mode != mode) == (input.left != input.right)
            &&& start ==> count > 0 && row < count && (input.enter || (input.clicked && input.hovered == Some(row)))
            &&& count > 0 && !input.mouse_moved && !input.clicked ==> row == keyboard_row(selected, count, input)
        }),
{
}

/// The pause screen is reached only from play, and only by ESC: the start
/// of a frame never leads to `Paused` otherwise.
pub proof fn lemma_paused_only_by_escape(state: GameState, escape_pressed: bool, health: i32)
    ensures
        spec_playing_frame_start(state, escape_pressed, health) == GameState::Paused ==> (state == GameState::Playing
            && escape_pressed) || state == GameState::Paused,
{
}

/// The pause menu leads only back to play or to the welcome screen (or
/// stays open).
pub proof fn lemma_pause_returns_to_play_or_welcome(input: MenuInput, selected: usize, has_next_level: bool)
    ensures
        ({
            let command = spec_menu_answer(GameState::Paused, input, selected, has_next_level).1;
            let next = command_target(GameState::Paused, command);
            next == GameState::Paused || next == GameState::Playing || next == GameState::Welcome
        }),
{
}

/// A dead run is never resumed: from the defeat screen no command goes
/// back to the same run; only a new run (retry) or the welcome screen
/// follows, and the start of a frame leaves `Defeat` as it is.
pub proof fn lemma_defeat_never_resumes(input: MenuInput, selected: usize, has_next_level: bool, escape: bool, health: i32)
    ensures
        spec_menu_answer(GameState::Defeat, input, selected, has_next_level).1 != MenuCommand::Resume,
        spec_menu_answer(GameState::Defeat, input, selected, has_next_level).1 != MenuCommand::NextLevel,
        spec_playing_frame_start(GameState::Defeat, escape, health) == GameState::Defeat,
{
}

/// ESC in the level selection never starts a level and never moves the
/// selection or the mode.
pub proof fn lemma_escape_never_starts_a_level(selected: usize, mode: GameMode, count: usize, input: MenuInput)
    requires
        input.escape,
    ensures
        spec_level_select_step(selected, mode, count, input) == (GameState::Welcome, selected, mode, false),
{
}

} // verus!
