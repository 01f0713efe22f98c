//! Shared game state: health, spells, events, the morale and day records.
//!
//! Quantities that were fractional in play (health, damage, morale, positions)
//! are held in thousandths: a health of `3000` is three hit points, a morale
//! of `50_000` is fifty percent.
use vstd::prelude::*;
use crate::timer::Timer;

verus! {

/// Screen width, in thousandths of a unit.
pub const SCREEN_WIDTH: i64 = 960_000;

/// Screen height, in thousandths of a unit.
pub const SCREEN_HEIGHT: i64 = 720_000;

/// Largest health, damage or morale magnitude the game handles.
pub const AMOUNT_LIMIT: i64 = 1_000_000_000_000_000;

#[derive(Clone, Copy, Debug, PartialEq, Eq, Hash, Structural)]
pub enum GameState {
    AssetLoading,
    MainMenu,
    Opening,
    MoraleStatus,
    ActiveGame,
    GameOver,
    Credits,
}

/// Damage dealt to the player, in thousandths of a hit point.
#[derive(Clone, Copy, Debug, PartialEq, Eq, Structural)]
pub struct DamagePlayerEvent(pub i64);

#[derive(Clone, Copy, Debug, PartialEq, Eq, Structural)]
pub enum DayEndReason {
    Timeout,
    PlayerDeath,
}

#[derive(Clone, Copy, Debug, PartialEq, Eq, Structural)]
pub struct EndDayEvent {
    pub reason: DayEndReason,
}

#[derive(Clone, Copy, Debug, PartialEq, Eq, Structural)]
pub struct ChangeSpellEvent(pub PlayerSpell);

#[derive(Clone, Copy, Debug, PartialEq, Eq, Structural)]
pub struct Health {
    pub current: i64,
    pub maximum: i64,
}

impl Health {
    pub fn full(hp: i64) -> (r: Health)
        ensures
            r.current == hp,
            r.maximum == hp,
    {
        Health { current: hp, maximum: hp }
    }
}

/// Contact damage that an enemy deals to the player while touching it.
#[derive(Clone, Copy, Debug, PartialEq, Eq, Structural)]
pub struct DamagesPlayer {
    pub damage: i64,
    pub tick: Timer,
    pub is_damaging: bool,
}

/// Damage that a player attack deals to the enemy it touches.
#[derive(Clone, Copy, Debug, PartialEq, Eq, Structural)]
pub struct DamagesEnemy {
    pub damage: i64,
    pub induces_fear: bool,
}

#[derive(Clone, Copy, Debug, PartialEq, Eq, Hash, Structural)]
pub enum PlayerSpell {
    Fireball,
    LightningStrike,
    FearWave,
}

pub open spec fn next_spell(s: PlayerSpell) -> PlayerSpell {
    match s {
        PlayerSpell::Fireball => PlayerSpell::LightningStrike,
        PlayerSpell::LightningStrike => PlayerSpell::FearWave,
        PlayerSpell::FearWave => PlayerSpell::Fireball,
    }
}

pub open spec fn previous_spell(s: PlayerSpell) -> PlayerSpell {
    match s {
        PlayerSpell::Fireball => PlayerSpell::FearWave,
        PlayerSpell::LightningStrike => PlayerSpell::Fireball,
        PlayerSpell::FearWave => PlayerSpell::LightningStrike,
    }
}

impl PlayerSpell {
    pub fn next(&self) -> (r: PlayerSpell)
        ensures
            r == next_spell(*self),
    {
        match self {
            PlayerSpell::Fireball => PlayerSpell::LightningStrike,
            PlayerSpell::LightningStrike => PlayerSpell::FearWave,
            PlayerSpell::FearWave => PlayerSpell::Fireball,
        }
    }

    pub fn previous(&self) -> (r: PlayerSpell)
        ensures
            r == previous_spell(*self),
    {
        match self {
            PlayerSpell::Fireball => PlayerSpell::FearWave,
            PlayerSpell::LightningStrike => PlayerSpell::Fireball,
            PlayerSpell::FearWave => PlayerSpell::LightningStrike,
        }
    }
}

/// Stepping back undoes stepping forward, and three steps forward come back
/// to the same spell.
pub proof fn lemma_spell_cycle(s: PlayerSpell)
    ensures
        previous_spell(next_spell(s)) == s,
        next_spell(previous_spell(s)) == s,
        next_spell(next_spell(next_spell(s))) == s,
{
}

/// The per-spell cooldowns, each a one-shot timer that the cast resets.
#[derive(Clone, Copy, Debug, PartialEq, Eq, Structural)]
pub struct SpellCooldowns {
    pub fireball: Timer,
    pub lightning_strike: Timer,
    pub fear_wave: Timer,
}

impl SpellCooldowns {
    pub open spec fn wf(self) -> bool {
        self.fireball.wf() && self.lightning_strike.wf() && self.fear_wave.wf()
    }

    pub fn default() -> (r: SpellCooldowns)
        ensures
            r.wf(),
            r.fireball == Timer::from_millis_spec(300, false),
            r.lightning_strike == Timer::from_millis_spec(800, false),
            r.fear_wave == Timer::from_millis_spec(700, false),
    {
        SpellCooldowns {
            fireball: Timer::from_millis(300, false),
            lightning_strike: Timer::from_millis(800, false),
            fear_wave: Timer::from_millis(700, false),
        }
    }

    /// Advances every cooldown by `delta` milliseconds, whichever spell is
    /// selected.
    pub fn tick_all(&mut self, delta: u64)
        requires
            old(self).wf(),
            delta <= crate::timer::MAX_TICK_MS,
        ensures
            final(self).wf(),
            final(self).fireball == old(self).fireball.ticked(delta),
            final(self).lightning_strike == old(self).lightning_strike.ticked(delta),
            final(self).fear_wave == old(self).fear_wave.ticked(delta),
    {
        self.fireball.tick(delta);
        self.lightning_strike.tick(delta);
        self.fear_wave.tick(delta);
    }
}

/// The day's countdown clock.
#[derive(Clone, Copy, Debug, PartialEq, Eq, Structural)]
pub struct CurrentTime(pub Timer);

impl CurrentTime {
    /// Milliseconds left in the day, never below zero.
    pub fn time_remaining(&self) -> (r: u64)
        ensures
            r == (if self.0.elapsed <= self.0.duration {
                self.0.duration - self.0.elapsed
            } else {
                0
            }),
    {
        self.0.remaining()
    }
}

/// A lightning bolt falling toward `end_y`.
#[derive(Clone, Copy, Debug, PartialEq, Eq, Structural)]
pub struct LightningStrikeBolt {
    pub end_y: i64,
}

/// The collision groups a body can belong to.
#[derive(Clone, Copy, Debug, PartialEq, Eq, Hash, Structural)]
pub enum GamePhysicsLayer {
    Player,
    PlayerAttack,
    Enemy,
    EnemyAttack,
}

/// The groups a colliding body belongs to.
#[derive(Clone, Copy, Debug, PartialEq, Eq, Structural)]
pub struct CollisionLayers {
    pub player: bool,
    pub player_attack: bool,
    pub enemy: bool,
    pub enemy_attack: bool,
}

pub open spec fn in_group(l: CollisionLayers, g: GamePhysicsLayer) -> bool {
    match g {
        GamePhysicsLayer::Player => l.player,
        GamePhysicsLayer::PlayerAttack => l.player_attack,
        GamePhysicsLayer::Enemy => l.enemy,
        GamePhysicsLayer::EnemyAttack => l.enemy_attack,
    }
}

impl CollisionLayers {
    pub fn contains_group(&self, g: GamePhysicsLayer) -> (r: bool)
        ensures
            r == in_group(*self, g),
    {
        match g {
            GamePhysicsLayer::Player => self.player,
            GamePhysicsLayer::PlayerAttack => self.player_attack,
            GamePhysicsLayer::Enemy => self.enemy,
            GamePhysicsLayer::EnemyAttack => self.enemy_attack,
        }
    }
}

/// The body belongs to `g` and not to `other`.
pub open spec fn only_in(l: CollisionLayers, g: GamePhysicsLayer, other: GamePhysicsLayer) -> bool {
    in_group(l, g) && !in_group(l, other)
}

/// Which side of a collision between two bodies belongs to group `a` alone
/// (and the other to `b` alone): `Some(true)` for the first body,
/// `Some(false)` for the second, `None` when neither ordering fits.
pub open spec fn pair_side(
    l1: CollisionLayers,
    l2: CollisionLayers,
    a: GamePhysicsLayer,
    b: GamePhysicsLayer,
) -> Option<bool> {
    if only_in(l1, a, b) && only_in(l2, b, a) {
        Some(true)
    } else if only_in(l2, a, b) && only_in(l1, b, a) {
        Some(false)
    } else {
        None
    }
}

/// Classifies a collision: see `pair_side`.
pub fn match_pair(
    l1: &CollisionLayers,
    l2: &CollisionLayers,
    a: GamePhysicsLayer,
    b: GamePhysicsLayer,
) -> (r: Option<bool>)
    ensures
        r == pair_side(*l1, *l2, a, b),
{
    let first_a = l1.contains_group(a) && !l1.contains_group(b);
    let second_b = l2.contains_group(b) && !l2.contains_group(a);
    let second_a = l2.contains_group(a) && !l2.contains_group(b);
    let first_b = l1.contains_group(b) && !l1.contains_group(a);
    if first_a && second_b {
        Some(true)
    } else if second_a && first_b {
        Some(false)
    } else {
        None
    }
}

} // verus!
