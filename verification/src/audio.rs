//! The audio rules of the game: the catalogue of music tracks and sound
//! effects with their asset paths, which sound answers which event, the
//! footstep cadence, the anti-spam cooldowns of the ambient enemy cues,
//! and which track plays. Loading and playing the files is the
//! application's part.

use vstd::prelude::*;

use crate::session::EnemyKind;
use crate::weapon::WeaponTier;

verus! {

/// The background music tracks; only one plays at a time.
#[derive(Debug, Clone, Copy, PartialEq, Eq, Hash, Structural)]
pub enum MusicTrack {
    Menu,
    CrimsonEntrance,
    BlackClub,
    HouseOfCards,
    /// The track of the procedural level, never derived from a theme.
    TheDealersTrueMaze,
    /// Played on every victory screen.
    Victory,
    /// Played on the defeat screen.
    Defeat,
    /// The fight against The King, never derived from a theme.
    FinalBattle,
}

/// The visual themes of the levels.
#[derive(Debug, Clone, Copy, PartialEq, Eq, Hash, Structural)]
pub enum LevelTheme {
    CrimsonEntrance,
    BlackClub,
    HouseOfCards,
}

/// The sound effects of the game and its menus.
#[derive(Debug, Clone, Copy, PartialEq, Eq, Hash, Structural)]
pub enum SoundEffect {
    Shoot,
    WallHit,
    EnemyIdle,
    EnemyAlert,
    EnemyHit,
    EnemyDeath,
    Footstep,
    MenuMove,
    MenuSelect,
    Victory,
    /// An accepted reload.
    Reload,
    /// The player took real damage this frame.
    PlayerHit,
    /// An ammunition pickup was consumed.
    AmmoPickup,
    /// A health pickup was consumed.
    HealthPickup,
    /// The Royal Flush was collected.
    RoyalFlushPickup,
    /// An accepted shot with The Royal Flush equipped.
    RoyalWeaponFire,
    /// The King entered the final Hand.
    KingSpawn,
    /// A shot hit The King without killing him.
    KingHit,
    /// The King's attack connected.
    KingAttack,
    /// The King died.
    KingDeath,
    /// The King summons a cohort of Dealers.
    KingSummon,
}

/// What a shot did to the enemy it hit.
#[derive(Debug, Clone, Copy, PartialEq, Eq, Structural)]
pub enum EntityDamageOutcome {
    /// The damage was rejected (the enemy was already dead, or
    /// protected).
    NoDamage,
    /// The enemy was hurt and lives.
    Hit,
    /// The enemy died.
    Killed,
}

/// Every music track, in declaration order.
pub open spec fn spec_all_music_tracks() -> Seq<MusicTrack> {
    seq![
        MusicTrack::Menu,
        MusicTrack::CrimsonEntrance,
        MusicTrack::BlackClub,
        MusicTrack::HouseOfCards,
        MusicTrack::TheDealersTrueMaze,
        MusicTrack::Victory,
        MusicTrack::Defeat,
        MusicTrack::FinalBattle,
    ]
}

/// Every music track, in declaration order (the catalogue to load).
pub fn all_music_tracks() -> (tracks: Vec<MusicTrack>)
    ensures
        tracks@ == spec_all_music_tracks(),
{
    let tracks = vec![
        MusicTrack::Menu,
        MusicTrack::CrimsonEntrance,
        MusicTrack::BlackClub,
        MusicTrack::HouseOfCards,
        MusicTrack::TheDealersTrueMaze,
        MusicTrack::Victory,
        MusicTrack::Defeat,
        MusicTrack::FinalBattle,
    ];
    assert(tracks@ =~= spec_all_music_tracks());
    tracks
}

/// Every sound effect, in declaration order.
pub open spec fn spec_all_sound_effects() -> Seq<SoundEffect> {
    seq![
        SoundEffect::Shoot,
        SoundEffect::WallHit,
        SoundEffect::EnemyIdle,
        SoundEffect::EnemyAlert,
        SoundEffect::EnemyHit,
        SoundEffect::EnemyDeath,
        SoundEffect::Footstep,
        SoundEffect::MenuMove,
        SoundEffect::MenuSelect,
        SoundEffect::Victory,
        SoundEffect::Reload,
        SoundEffect::PlayerHit,
        SoundEffect::AmmoPickup,
        SoundEffect::HealthPickup,
        SoundEffect::RoyalFlushPickup,
        SoundEffect::RoyalWeaponFire,
        SoundEffect::KingSpawn,
        SoundEffect::KingHit,
        SoundEffect::KingAttack,
        SoundEffect::KingDeath,
        SoundEffect::KingSummon,
    ]
}

/// Every sound effect, in declaration order (the catalogue to load).
pub fn all_sound_effects() -> (effects: Vec<SoundEffect>)
    ensures
        effects@ == spec_all_sound_effects(),
{
    let effects = vec![
        SoundEffect::Shoot,
        SoundEffect::WallHit,
        SoundEffect::EnemyIdle,
        SoundEffect::EnemyAlert,
        SoundEffect::EnemyHit,
        SoundEffect::EnemyDeath,
        SoundEffect::Footstep,
        SoundEffect::MenuMove,
        SoundEffect::MenuSelect,
        SoundEffect::Victory,
        SoundEffect::Reload,
        SoundEffect::PlayerHit,
        SoundEffect::AmmoPickup,
        SoundEffect::HealthPickup,
        SoundEffect::RoyalFlushPickup,
        SoundEffect::RoyalWeaponFire,
        SoundEffect::KingSpawn,
        SoundEffect::KingHit,
        SoundEffect::KingAttack,
        SoundEffect::KingDeath,
        SoundEffect::KingSummon,
    ];
    assert(effects@ =~= spec_all_sound_effects());
    effects
}

/// The asset path of a music track.
pub open spec fn spec_music_path(track: MusicTrack) -> Seq<char> {
    match track {
        MusicTrack::Menu => "assets/audio/music/menu.mp3"@,
        MusicTrack::CrimsonEntrance => "assets/audio/music/crimson_entrance.mp3"@,
        MusicTrack::BlackClub => "assets/audio/music/black_club.mp3"@,
        MusicTrack::HouseOfCards => "assets/audio/music/house_of_cards.mp3"@,
        MusicTrack::TheDealersTrueMaze => "assets/audio/music/the_dealers_true_maze.mp3"@,
        MusicTrack::Victory => "assets/audio/music/victory.mp3"@,
        MusicTrack::Defeat => "assets/audio/music/defeat.mp3"@,
        MusicTrack::FinalBattle => "assets/audio/music/final_battle.mp3"@,
    }
}

/// The asset path of a music track: the only place that knows it.
pub fn music_path(track: MusicTrack) -> (path: &'static str)
    ensures
        path@ == spec_music_path(track),
{
    match track {
        MusicTrack::Menu => "assets/audio/music/menu.mp3",
        MusicTrack::CrimsonEntrance => "assets/audio/music/crimson_entrance.mp3",
        MusicTrack::BlackClub => "assets/audio/music/black_club.mp3",
        MusicTrack::HouseOfCards => "assets/audio/music/house_of_cards.mp3",
        MusicTrack::TheDealersTrueMaze => "assets/audio/music/the_dealers_true_maze.mp3",
        MusicTrack::Victory => "assets/audio/music/victory.mp3",
        MusicTrack::Defeat => "assets/audio/music/defeat.mp3",
        MusicTrack::FinalBattle => "assets/audio/music/final_battle.mp3",
    }
}

/// The track of a level theme: each theme has its own; the procedural
/// level's track, the final battle and the victory and defeat tracks
/// are never reached through a theme.
pub open spec fn spec_music_track_for_theme(theme: LevelTheme) -> MusicTrack {
    match theme {
        LevelTheme::CrimsonEntrance => MusicTrack::CrimsonEntrance,
        LevelTheme::BlackClub => MusicTrack::BlackClub,
        LevelTheme::HouseOfCards => MusicTrack::HouseOfCards,
    }
}

/// The track of a level theme (see `spec_music_track_for_theme`).
pub fn music_track_for_theme(theme: LevelTheme) -> (track: MusicTrack)
    ensures
        track == spec_music_track_for_theme(theme),
{
    match theme {
        LevelTheme::CrimsonEntrance => MusicTrack::CrimsonEntrance,
        LevelTheme::BlackClub => MusicTrack::BlackClub,
        LevelTheme::HouseOfCards => MusicTrack::HouseOfCards,
    }
}

/// The asset path of a sound effect.
pub open spec fn spec_sfx_path(effect: SoundEffect) -> Seq<char> {
    match effect {
        SoundEffect::Shoot => "assets/audio/sfx/shoot.wav"@,
        SoundEffect::WallHit => "assets/audio/sfx/wall_hit.wav"@,
        SoundEffect::EnemyIdle => "assets/audio/sfx/enemy_idle.wav"@,
        SoundEffect::EnemyAlert => "assets/audio/sfx/enemy_alert.wav"@,
        SoundEffect::EnemyHit => "assets/audio/sfx/enemy_hit.wav"@,
        SoundEffect::EnemyDeath => "assets/audio/sfx/enemy_death.wav"@,
        SoundEffect::Footstep => "assets/audio/sfx/footstep.wav"@,
        SoundEffect::MenuMove => "assets/audio/sfx/menu_move.wav"@,
        SoundEffect::MenuSelect => "assets/audio/sfx/menu_select.wav"@,
        SoundEffect::Victory => "assets/audio/sfx/victory.wav"@,
        SoundEffect::Reload => "assets/audio/sfx/reload.wav"@,
        SoundEffect::PlayerHit => "assets/audio/sfx/player_hit.wav"@,
        SoundEffect::AmmoPickup => "assets/audio/sfx/ammo_pickup.wav"@,
        SoundEffect::HealthPickup => "assets/audio/sfx/health_pickup.wav"@,
        SoundEffect::RoyalFlushPickup => "assets/audio/sfx/royal_flush_pickup.wav"@,
        SoundEffect::RoyalWeaponFire => "assets/audio/sfx/royal_weapon_fire.wav"@,
        SoundEffect::KingSpawn => "assets/audio/sfx/king_spawn.wav"@,
        SoundEffect::KingHit => "assets/audio/sfx/king_hit.wav"@,
        SoundEffect::KingAttack => "assets/audio/sfx/king_attack.wav"@,
        SoundEffect::KingDeath => "assets/audio/sfx/king_death.wav"@,
        SoundEffect::KingSummon => "assets/audio/sfx/king_summon.wav"@,
    }
}

/// The asset path of a sound effect: the only place that knows it.
pub fn sfx_path(effect: SoundEffect) -> (path: &'static str)
    ensures
        path@ == spec_sfx_path(effect),
{
    match effect {
        SoundEffect::Shoot => "assets/audio/sfx/shoot.wav",
        SoundEffect::WallHit => "assets/audio/sfx/wall_hit.wav",
        SoundEffect::EnemyIdle => "assets/audio/sfx/enemy_idle.wav",
        SoundEffect::EnemyAlert => "assets/audio/sfx/enemy_alert.wav",
        SoundEffect::EnemyHit => "assets/audio/sfx/enemy_hit.wav",
        SoundEffect::EnemyDeath => "assets/audio/sfx/enemy_death.wav",
        SoundEffect::Footstep => "assets/audio/sfx/footstep.wav",
        SoundEffect::MenuMove => "assets/audio/sfx/menu_move.wav",
        SoundEffect::MenuSelect => "assets/audio/sfx/menu_select.wav",
        SoundEffect::Victory => "assets/audio/sfx/victory.wav",
        SoundEffect::Reload => "assets/audio/sfx/reload.wav",
        SoundEffect::PlayerHit => "assets/audio/sfx/player_hit.wav",
        SoundEffect::AmmoPickup => "assets/audio/sfx/ammo_pickup.wav",
        SoundEffect::HealthPickup => "assets/audio/sfx/health_pickup.wav",
        SoundEffect::RoyalFlushPickup => "assets/audio/sfx/royal_flush_pickup.wav",
        SoundEffect::RoyalWeaponFire => "assets/audio/sfx/royal_weapon_fire.wav",
        SoundEffect::KingSpawn => "assets/audio/sfx/king_spawn.wav",
        SoundEffect::KingHit => "assets/audio/sfx/king_hit.wav",
        SoundEffect::KingAttack => "assets/audio/sfx/king_attack.wav",
        SoundEffect::KingDeath => "assets/audio/sfx/king_death.wav",
        SoundEffect::KingSummon => "assets/audio/sfx/king_summon.wav",
    }
}

/// The sound of an accepted shot: `Shoot` with the Standard weapon,
/// `RoyalWeaponFire` with The Royal Flush.
pub fn weapon_fire_sound(tier: WeaponTier) -> (effect: SoundEffect)
    ensures
        tier == WeaponTier::Standard ==> effect == SoundEffect::Shoot,
        tier == WeaponTier::RoyalFlush ==> effect == SoundEffect::RoyalWeaponFire,
{
    match tier {
        WeaponTier::Standard => SoundEffect::Shoot,
        WeaponTier::RoyalFlush => SoundEffect::RoyalWeaponFire,
    }
}

/// The sound of a non-lethal hit: The King has his own.
pub fn enemy_hit_sound(kind: EnemyKind) -> (effect: SoundEffect)
    ensures
        kind == EnemyKind::Dealer ==> effect == SoundEffect::EnemyHit,
        kind == EnemyKind::King ==> effect == SoundEffect::KingHit,
{
    match kind {
        EnemyKind::Dealer => SoundEffect::EnemyHit,
        EnemyKind::King => SoundEffect::KingHit,
    }
}

/// The sound of a lethal hit: The King has his own.
pub fn enemy_death_sound(kind: EnemyKind) -> (effect: SoundEffect)
    ensures
        kind == EnemyKind::Dealer ==> effect == SoundEffect::EnemyDeath,
        kind == EnemyKind::King ==> effect == SoundEffect::KingDeath,
{
    match kind {
        EnemyKind::Dealer => SoundEffect::EnemyDeath,
        EnemyKind::King => SoundEffect::KingDeath,
    }
}

/// The impact sound of a shot that hit The King, or none: exactly one
/// sound per shot at most. A shot that broke one of his phase thresholds
/// sounds like a Dealer's death (never also `KingHit`); otherwise a hit
/// is `KingHit`, his death `KingDeath`, and rejected damage is silent.
pub fn king_impact_sound(outcome: EntityDamageOutcome, broke_phase: bool) -> (effect: Option<SoundEffect>)
    ensures
        broke_phase ==> effect == Some(SoundEffect::EnemyDeath),
        !broke_phase && outcome == EntityDamageOutcome::Hit ==> effect == Some(SoundEffect::KingHit),
        !broke_phase && outcome == EntityDamageOutcome::Killed ==> effect == Some(SoundEffect::KingDeath),
        !broke_phase && outcome == EntityDamageOutcome::NoDamage ==> effect is None,
{
    if broke_phase {
        return Some(SoundEffect::EnemyDeath);
    }
    match outcome {
        EntityDamageOutcome::Hit => Some(SoundEffect::KingHit),
        EntityDamageOutcome::Killed => Some(SoundEffect::KingDeath),
        EntityDamageOutcome::NoDamage => None,
    }
}

/// Directory of the music assets.
pub open spec fn music_dir() -> Seq<char> {
    "assets/audio/music/"@
}

/// Directory of the sound effect assets.
pub open spec fn sfx_dir() -> Seq<char> {
    "assets/audio/sfx/"@
}

/// Every music track has its own path, under the music directory.
pub proof fn lemma_music_catalogue(a: MusicTrack, b: MusicTrack)
    ensures
        a != b ==> spec_music_path(a) != spec_music_path(b),
        music_dir().is_prefix_of(spec_music_path(a)),
{
    reveal_strlit("assets/audio/music/");
    reveal_strlit("assets/audio/music/menu.mp3");
    reveal_strlit("assets/audio/music/crimson_entrance.mp3");
    reveal_strlit("assets/audio/music/black_club.mp3");
    reveal_strlit("assets/audio/music/house_of_cards.mp3");
    reveal_strlit("assets/audio/music/the_dealers_true_maze.mp3");
    reveal_strlit("assets/audio/music/victory.mp3");
    reveal_strlit("assets/audio/music/defeat.mp3");
    reveal_strlit("assets/audio/music/final_battle.mp3");
    if a != b {
        let pa = spec_music_path(a);
        let pb = spec_music_path(b);
        if pa == pb {
            assert(pa.len() == pb.len());
            assert(pa[19] == pb[19]);
            assert(pa[20] == pb[20]);
            assert(pa[21] == pb[21]);
        }
    }
    assert(music_dir().is_prefix_of(spec_music_path(a)));
}

/// Every sound effect has its own path, under the sound effect
/// directory.
pub proof fn lemma_sfx_catalogue(a: SoundEffect, b: SoundEffect)
    ensures
        a != b ==> spec_sfx_path(a) != spec_sfx_path(b),
        sfx_dir().is_prefix_of(spec_sfx_path(a)),
{
    reveal_strlit("assets/audio/sfx/");
    reveal_strlit("assets/audio/sfx/shoot.wav");
    reveal_strlit("assets/audio/sfx/wall_hit.wav");
    reveal_strlit("assets/audio/sfx/enemy_idle.wav");
    reveal_strlit("assets/audio/sfx/enemy_alert.wav");
    reveal_strlit("assets/audio/sfx/enemy_hit.wav");
    reveal_strlit("assets/audio/sfx/enemy_death.wav");
    reveal_strlit("assets/audio/sfx/footstep.wav");
    reveal_strlit("assets/audio/sfx/menu_move.wav");
    reveal_strlit("assets/audio/sfx/menu_select.wav");
    reveal_strlit("assets/audio/sfx/victory.wav");
    reveal_strlit("assets/audio/sfx/reload.wav");
    reveal_strlit("assets/audio/sfx/player_hit.wav");
    reveal_strlit("assets/audio/sfx/ammo_pickup.wav");
    reveal_strlit("assets/audio/sfx/health_pickup.wav");
    reveal_strlit("assets/audio/sfx/royal_flush_pickup.wav");
    reveal_strlit("assets/audio/sfx/royal_weapon_fire.wav");
    reveal_strlit("assets/audio/sfx/king_spawn.wav");
    reveal_strlit("assets/audio/sfx/king_hit.wav");
    reveal_strlit("assets/audio/sfx/king_attack.wav");
    reveal_strlit("assets/audio/sfx/king_death.wav");
    reveal_strlit("assets/audio/sfx/king_summon.wav");
    if a != b {
        let pa = spec_sfx_path(a);
        let pb = spec_sfx_path(b);
        if pa == pb {
            assert(pa.len() == pb.len());
            assert(pa[17] == pb[17]);
            assert(pa[18] == pb[18]);
            assert(pa[19] == pb[19]);
            assert(pa[20] == pb[20]);
            assert(pa[21] == pb[21]);
            assert(pa[22] == pb[22]);
            assert(pa[23] == pb[23]);
            assert(pa[24] == pb[24]);
            assert(pa[25] == pb[25]);
        }
    }
    assert(sfx_dir().is_prefix_of(spec_sfx_path(a)));
}

/// No music path is the path of a sound effect.
pub proof fn lemma_music_and_sfx_paths_differ(track: MusicTrack, effect: SoundEffect)
    ensures
        spec_music_path(track) != spec_sfx_path(effect),
{
    reveal_strlit("assets/audio/music/menu.mp3");
    reveal_strlit("assets/audio/music/crimson_entrance.mp3");
    reveal_strlit("assets/audio/music/black_club.mp3");
    reveal_strlit("assets/audio/music/house_of_cards.mp3");
    reveal_strlit("assets/audio/music/the_dealers_true_maze.mp3");
    reveal_strlit("assets/audio/music/victory.mp3");
    reveal_strlit("assets/audio/music/defeat.mp3");
    reveal_strlit("assets/audio/music/final_battle.mp3");
    reveal_strlit("assets/audio/sfx/shoot.wav");
    reveal_strlit("assets/audio/sfx/wall_hit.wav");
    reveal_strlit("assets/audio/sfx/enemy_idle.wav");
    reveal_strlit("assets/audio/sfx/enemy_alert.wav");
    reveal_strlit("assets/audio/sfx/enemy_hit.wav");
    reveal_strlit("assets/audio/sfx/enemy_death.wav");
    reveal_strlit("assets/audio/sfx/footstep.wav");
    reveal_strlit("assets/audio/sfx/menu_move.wav");
    reveal_strlit("assets/audio/sfx/menu_select.wav");
    reveal_strlit("assets/audio/sfx/victory.wav");
    reveal_strlit("assets/audio/sfx/reload.wav");
    reveal_strlit("assets/audio/sfx/player_hit.wav");
    reveal_strlit("assets/audio/sfx/ammo_pickup.wav");
    reveal_strlit("assets/audio/sfx/health_pickup.wav");
    reveal_strlit("assets/audio/sfx/royal_flush_pickup.wav");
    reveal_strlit("assets/audio/sfx/royal_weapon_fire.wav");
    reveal_strlit("assets/audio/sfx/king_spawn.wav");
    reveal_strlit("assets/audio/sfx/king_hit.wav");
    reveal_strlit("assets/audio/sfx/king_attack.wav");
    reveal_strlit("assets/audio/sfx/king_death.wav");
    reveal_strlit("assets/audio/sfx/king_summon.wav");
    let pa = spec_music_path(track);
    let pb = spec_sfx_path(effect);
    if pa == pb {
        assert(pa[13] == pb[13]);
    }
}

/// Each level theme has its own track, and no theme leads to the menu,
/// the procedural level's, the final battle, the victory or the defeat
/// track.
pub proof fn lemma_theme_tracks(a: LevelTheme, b: LevelTheme)
    ensures
        a != b ==> spec_music_track_for_theme(a) != spec_music_track_for_theme(b),
        spec_music_track_for_theme(a) != MusicTrack::Menu,
        spec_music_track_for_theme(a) != MusicTrack::TheDealersTrueMaze,
        spec_music_track_for_theme(a) != MusicTrack::FinalBattle,
        spec_music_track_for_theme(a) != MusicTrack::Victory,
        spec_music_track_for_theme(a) != MusicTrack::Defeat,
{
}

/// Anti-spam cooldown of `EnemyIdle`, in microseconds.
pub const ENEMY_IDLE_COOLDOWN_US: u64 = 600_000;

/// Anti-spam cooldown of `EnemyAlert`, in microseconds.
pub const ENEMY_ALERT_COOLDOWN_US: u64 = 350_000;

/// Interval between footsteps while the player keeps moving, in
/// microseconds.
pub const FOOTSTEP_INTERVAL_US: u64 = 300_000;

/// The footstep cadence: whether the player was moving, and the time
/// since the last step.
#[derive(Debug, Clone, Copy)]
pub struct FootstepCadence {
    time_since_last_step: u64,
    was_moving: bool,
}

impl View for FootstepCadence {
    type V = (u64, bool);

    closed spec fn view(&self) -> (u64, bool) {
        (self.time_since_last_step, self.was_moving)
    }
}

impl FootstepCadence {
    /// Not moving, no time accumulated.
    pub fn new() -> (cadence: Self)
        ensures
            cadence@ == (0u64, false),
    {
        FootstepCadence { time_since_last_step: 0, was_moving: false }
    }

    /// Whether a footstep sounds this frame. A zero step is ignored
    /// without touching the state. Stopping resets the cadence, so the
    /// next movement steps promptly; starting to move steps at once; then
    /// a step sounds every `FOOTSTEP_INTERVAL_US`, the excess time carried
    /// over (saturating at `u64::MAX`).
    pub fn update(&mut self, is_moving: bool, delta_us: u64) -> (step: bool)
        ensures
            delta_us == 0 ==> !step && final(self)@ == old(self)@,
            delta_us > 0 && !is_moving ==> !step && final(self)@ == (0u64, false),
            delta_us > 0 && is_moving && !old(self)@.1 ==> step && final(self)@ == (0u64, true),
            delta_us > 0 && is_moving && old(self)@.1 ==> {
                let t = old(self)@.0 + delta_us;
                &&& step == (t >= FOOTSTEP_INTERVAL_US)
                &&& final(self)@ == (if t >= FOOTSTEP_INTERVAL_US {
                    (if t - FOOTSTEP_INTERVAL_US <= u64::MAX { (t - FOOTSTEP_INTERVAL_US) as u64 } else { u64::MAX }, true)
                } else {
                    (t as u64, true)
                })
            },
    {
        if delta_us == 0 {
            return false;
        }
        if !is_moving {
            self.was_moving = false;
            self.time_since_last_step = 0;
            return false;
        }
        if !self.was_moving {
            self.was_moving = true;
            self.time_since_last_step = 0;
            return true;
        }
        let total: u128 = self.time_since_last_step as u128 + delta_us as u128;
        if total >= FOOTSTEP_INTERVAL_US as u128 {
            let left = total - FOOTSTEP_INTERVAL_US as u128;
            self.time_since_last_step = if left <= u64::MAX as u128 { left as u64 } else { u64::MAX };
            true
        } else {
            self.time_since_last_step = total as u64;
            false
        }
    }
}

/// The anti-spam cooldowns of the ambient enemy cues: several Dealers
/// may go idle or alert on the same frame; one cue is enough.
#[derive(Debug, Clone, Copy)]
pub struct CueCooldowns {
    enemy_idle: u64,
    enemy_alert: u64,
}

impl View for CueCooldowns {
    type V = (u64, u64);

    closed spec fn view(&self) -> (u64, u64) {
        (self.enemy_idle, self.enemy_alert)
    }
}

impl CueCooldowns {
    /// No cooldown running.
    pub fn new() -> (cooldowns: Self)
        ensures
            cooldowns@ == (0u64, 0u64),
    {
        CueCooldowns { enemy_idle: 0, enemy_alert: 0 }
    }

    /// Runs both cooldowns down by `delta_us`, never below zero.
    pub fn update(&mut self, delta_us: u64)
        ensures
            final(self)@ == (
                if old(self)@.0 > delta_us { (old(self)@.0 - delta_us) as u64 } else { 0u64 },
                if old(self)@.1 > delta_us { (old(self)@.1 - delta_us) as u64 } else { 0u64 },
            ),
    {
        self.enemy_idle = if self.enemy_idle > delta_us { self.enemy_idle - delta_us } else { 0 };
        self.enemy_alert = if self.enemy_alert > delta_us { self.enemy_alert - delta_us } else { 0 };
    }

    /// Whether a request to play `effect` may sound now. `EnemyIdle` and
    /// `EnemyAlert` are refused while their cooldown runs, and restart it
    /// when allowed; every other effect is always allowed.
    pub fn allow(&mut self, effect: SoundEffect) -> (allowed: bool)
        ensures
            effect == SoundEffect::EnemyIdle ==> allowed == (old(self)@.0 == 0) && final(self)@ == (
                if allowed { ENEMY_IDLE_COOLDOWN_US } else { old(self)@.0 },
                old(self)@.1,
            ),
            effect == SoundEffect::EnemyAlert ==> allowed == (old(self)@.1 == 0) && final(self)@ == (
                old(self)@.0,
                if allowed { ENEMY_ALERT_COOLDOWN_US } else { old(self)@.1 },
            ),
            effect != SoundEffect::EnemyIdle && effect != SoundEffect::EnemyAlert ==> allowed && final(self)@
                == old(self)@,
    {
        match effect {
            SoundEffect::EnemyIdle => {
                if self.enemy_idle > 0 {
                    return false;
                }
                self.enemy_idle = ENEMY_IDLE_COOLDOWN_US;
                true
            },
            SoundEffect::EnemyAlert => {
                if self.enemy_alert > 0 {
                    return false;
                }
                self.enemy_alert = ENEMY_ALERT_COOLDOWN_US;
                true
            },
            _ => true,
        }
    }
}

/// A change of the background music: the track to stop and the track to
/// start from its beginning.
#[derive(Debug, Clone, Copy)]
pub struct MusicChange {
    pub stop: Option<MusicTrack>,
    pub start: Option<MusicTrack>,
}

/// Which track is selected (playing or paused), if any.
#[derive(Debug, Clone, Copy)]
pub struct MusicSelection {
    current: Option<MusicTrack>,
}

impl View for MusicSelection {
    type V = Option<MusicTrack>;

    closed spec fn view(&self) -> Option<MusicTrack> {
        self.current
    }
}

impl MusicSelection {
    /// No track selected.
    pub fn new() -> (selection: Self)
        ensures
            selection@ is None,
    {
        MusicSelection { current: None }
    }

    /// The selected track.
    pub fn current(&self) -> (track: Option<MusicTrack>)
        ensures
            track == self@,
    {
        self.current
    }

    /// Selects `track`: nothing changes when it is already selected (the
    /// stream is not restarted); otherwise the previous track stops and
    /// `track` starts from the beginning, so two tracks never play
    /// together.
    pub fn set_music(&mut self, track: MusicTrack) -> (change: MusicChange)
        ensures
            final(self)@ == Some(track),
            old(self)@ == Some(track) ==> change.stop is None && change.start is None,
            old(self)@ != Some(track) ==> change.stop == old(self)@ && change.start == Some(track),
    {
        match self.current {
            Some(current) => {
                if current == track {
                    return MusicChange { stop: None, start: None };
                }
            },
            None => {},
        }
        let previous = self.current;
        self.current = Some(track);
        MusicChange { stop: previous, start: Some(track) }
    }

    /// Stops the music altogether and leaves no track selected; the next
    /// selection starts from the beginning. Returns the track to stop.
    pub fn stop_music(&mut self) -> (stopped: Option<MusicTrack>)
        ensures
            final(self)@ is None,
            stopped == old(self)@,
    {
        let previous = self.current;
        self.current = None;
        previous
    }
}

} // verus!
