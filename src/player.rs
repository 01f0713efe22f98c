//! The player's side of a frame: casting spells under cooldowns, the idle
//! penalty, switching spells, taking damage, and the day's clock.
use vstd::prelude::*;
use crate::common::{
    AMOUNT_LIMIT, ChangeSpellEvent, CurrentTime, DamagePlayerEvent, DamagesEnemy, DayEndReason, EndDayEvent, Health,
    LightningStrikeBolt, PlayerSpell, SpellCooldowns, SCREEN_HEIGHT, next_spell, previous_spell,
};
use crate::enemy::{in_world, WORLD_LIMIT};
use crate::morale::{CurrentDay, EnemyMorale};
use crate::timer::{Timer, MAX_TICK_MS};
use crate::vector::{rotated, scale_spec, sub_spec, Vec2};
use crate::wave::{reset_waves, WaveManager};

verus! {

pub const FIREBALL_SPEED: i64 = 360_000;

pub const FEAR_WAVE_SPEED: i64 = 240_000;

/// A fireball's hit, and the lesser hit of the wider ring around it.
pub const FIREBALL_DAMAGE: i64 = 2_000;

pub const FIREBALL_SPLASH: i64 = 1_000;

/// Milliseconds a fireball flies before it is gone.
pub const FIREBALL_LIFETIME_MS: u64 = 1_500;

pub const FEAR_WAVE_DAMAGE: i64 = 200;

pub const FEAR_WAVE_LIFETIME_MS: u64 = 4_000;

/// A lightning impact's hit, and the lesser hit of the wider ring around it.
pub const LIGHTNING_DAMAGE: i64 = 3_000;

pub const LIGHTNING_SPLASH: i64 = 2_000;

pub const LIGHTNING_LIFETIME_MS: u64 = 250;

/// Cosine and sine, in ten-thousandths, of the angle between the fireballs
/// of one cast (a thirty-second of a full turn).
pub const FAN_COS: i64 = 9_808;

pub const FAN_SIN: i64 = 1_951;

/// How high above its target a lightning bolt appears.
pub const BOLT_HEIGHT: i64 = SCREEN_HEIGHT + 24_000;

/// How far a lightning bolt falls per millisecond.
pub const BOLT_FALL_PER_MS: i64 = 3_600;

/// Morale lost each time the idle penalty comes round.
pub const IDLE_MORALE: i64 = 100;

/// How far the player moves per frame on each held direction.
pub const PLAYER_STEP: i64 = 4_000;

#[derive(Clone, Copy, Debug, PartialEq, Eq, Structural)]
pub struct PlayerSpellData {
    pub selected: PlayerSpell,
    pub cooldowns: SpellCooldowns,
    /// Grace period of not attacking before the idle penalty starts.
    pub no_shoot_delay: Timer,
    /// Repeats while the player keeps not attacking.
    pub no_shoot_penalty: Timer,
}

impl PlayerSpellData {
    pub open spec fn wf(self) -> bool {
        self.cooldowns.wf() && self.no_shoot_delay.wf() && self.no_shoot_penalty.wf()
    }

    /// The spell state a new player starts with: fireball selected, every
    /// cooldown from zero.
    pub fn new() -> (r: PlayerSpellData)
        ensures
            r.wf(),
            r.selected == PlayerSpell::Fireball,
            r.no_shoot_delay == Timer::from_millis_spec(1_000, false),
            r.no_shoot_penalty == Timer::from_millis_spec(100, true),
    {
        PlayerSpellData {
            selected: PlayerSpell::Fireball,
            cooldowns: SpellCooldowns::default(),
            no_shoot_delay: Timer::from_millis(1_000, false),
            no_shoot_penalty: Timer::from_millis(100, true),
        }
    }
}

/// What one cast puts into the world.
#[derive(Clone, Copy, Debug, PartialEq, Eq, Structural)]
pub enum SpellCast {
    /// Three fireballs from the player, fanned around the aim; each deals
    /// `hit`, its wider ring `splash`, and lasts `lifetime_ms`.
    Fireball {
        left: Vec2,
        centre: Vec2,
        right: Vec2,
        hit: DamagesEnemy,
        splash: DamagesEnemy,
        lifetime_ms: u64,
    },
    /// A bolt that appears at `start` and falls to `end_y`.
    LightningStrike { start: Vec2, end_y: i64 },
    /// A wave that moves from the player toward the aim, dealing `hit` and
    /// lasting `lifetime_ms`.
    FearWave { velocity: Vec2, hit: DamagesEnemy, lifetime_ms: u64 },
}

/// The explosion where a lightning bolt lands: it deals `primary`, its
/// wider ring `splash`, and lasts `lifetime_ms`.
#[derive(Clone, Copy, Debug, PartialEq, Eq, Structural)]
pub struct Impact {
    pub at: Vec2,
    pub primary: DamagesEnemy,
    pub splash: DamagesEnemy,
    pub lifetime_ms: u64,
}

pub open spec fn fireball_fan(player: Vec2, cursor: Vec2) -> SpellCast {
    let aim = scale_spec(sub_spec(cursor, player), FIREBALL_SPEED as int);
    SpellCast::Fireball {
        left: rotated(aim, FAN_COS as int, -FAN_SIN),
        centre: aim,
        right: rotated(aim, FAN_COS as int, FAN_SIN as int),
        hit: DamagesEnemy { damage: FIREBALL_DAMAGE, induces_fear: true },
        splash: DamagesEnemy { damage: FIREBALL_SPLASH, induces_fear: true },
        lifetime_ms: FIREBALL_LIFETIME_MS,
    }
}

/// The cast the selected spell makes toward `cursor`, when its cooldown
/// has run out.
pub open spec fn cast_of(selected: PlayerSpell, c: SpellCooldowns, player: Vec2, cursor: Vec2) -> Option<
    SpellCast,
> {
    match selected {
        PlayerSpell::Fireball => if c.fireball.finished {
            Some(fireball_fan(player, cursor))
        } else {
            None
        },
        PlayerSpell::LightningStrike => if c.lightning_strike.finished {
            Some(
                SpellCast::LightningStrike {
                    start: Vec2 { x: cursor.x, y: (cursor.y + BOLT_HEIGHT) as i64 },
                    end_y: cursor.y,
                },
            )
        } else {
            None
        },
        PlayerSpell::FearWave => if c.fear_wave.finished {
            Some(
                SpellCast::FearWave {
                    velocity: scale_spec(sub_spec(cursor, player), FEAR_WAVE_SPEED as int),
                    hit: DamagesEnemy { damage: FEAR_WAVE_DAMAGE, induces_fear: true },
                    lifetime_ms: FEAR_WAVE_LIFETIME_MS,
                },
            )
        } else {
            None
        },
    }
}

/// The cooldowns after a cast: the spell that fired starts over.
pub open spec fn cooldowns_after(selected: PlayerSpell, c: SpellCooldowns, fired: bool) -> SpellCooldowns {
    if !fired {
        c
    } else {
        match selected {
            PlayerSpell::Fireball => SpellCooldowns { fireball: c.fireball.reset_spec(), ..c },
            PlayerSpell::LightningStrike => SpellCooldowns {
                lightning_strike: c.lightning_strike.reset_spec(),
                ..c
            },
            PlayerSpell::FearWave => SpellCooldowns { fear_wave: c.fear_wave.reset_spec(), ..c },
        }
    }
}

/// The idle timers after a frame without attacking, and whether the penalty
/// came round.
pub open spec fn idle_delay(d: PlayerSpellData, delta: u64) -> Timer {
    d.no_shoot_delay.ticked(delta)
}

pub open spec fn idle_penalty(d: PlayerSpellData, delta: u64) -> Timer {
    if idle_delay(d, delta).finished {
        d.no_shoot_penalty.ticked(delta)
    } else {
        d.no_shoot_penalty
    }
}

pub open spec fn idle_penalised(d: PlayerSpellData, delta: u64) -> bool {
    idle_delay(d, delta).finished && idle_penalty(d, delta).times_finished > 0
}

fn fireball_cast(player: &Vec2, cursor: &Vec2) -> (r: SpellCast)
    requires
        in_world(*player),
        in_world(*cursor),
    ensures
        r == fireball_fan(*player, *cursor),
{
    let aim = cursor.sub(player).scale_to(FIREBALL_SPEED);
    SpellCast::Fireball {
        left: aim.rotate(FAN_COS, -FAN_SIN),
        centre: aim,
        right: aim.rotate(FAN_COS, FAN_SIN),
        hit: DamagesEnemy { damage: FIREBALL_DAMAGE, induces_fear: true },
        splash: DamagesEnemy { damage: FIREBALL_SPLASH, induces_fear: true },
        lifetime_ms: FIREBALL_LIFETIME_MS,
    }
}

/// One frame of the attack button. While it is held, the selected spell is
/// cast toward the cursor (when there is one) if its cooldown has run out,
/// and that cooldown starts over; the idle timers start over too. While it
/// is not held, the grace period runs, and once it is over the penalty timer
/// runs and takes morale each time it comes round.
pub fn player_shoot(
    data: &mut PlayerSpellData,
    pressed: bool,
    cursor: Option<Vec2>,
    player: &Vec2,
    delta: u64,
    morale: &mut EnemyMorale,
) -> (r: Option<SpellCast>)
    requires
        old(data).wf(),
        in_world(*player),
        cursor matches Some(c) ==> in_world(c),
        delta <= MAX_TICK_MS,
        old(morale).change >= -AMOUNT_LIMIT + IDLE_MORALE,
    ensures
        final(data).wf(),
        final(data).selected == old(data).selected,
        pressed ==> {
            &&& r == (match cursor {
                Some(c) => cast_of(old(data).selected, old(data).cooldowns, *player, c),
                None => None,
            })
            &&& final(data).cooldowns == cooldowns_after(old(data).selected, old(data).cooldowns, r is Some)
            &&& final(data).no_shoot_delay == old(data).no_shoot_delay.reset_spec()
            &&& final(data).no_shoot_penalty == old(data).no_shoot_penalty.reset_spec()
            &&& *final(morale) == *old(morale)
        },
        !pressed ==> {
            &&& r is None
            &&& final(data).cooldowns == old(data).cooldowns
            &&& final(data).no_shoot_delay == idle_delay(*old(data), delta)
            &&& final(data).no_shoot_penalty == idle_penalty(*old(data), delta)
            &&& final(morale).change == old(morale).change - if idle_penalised(*old(data), delta) {
                IDLE_MORALE as int
            } else {
                0
            }
            &&& final(morale).current == old(morale).current
            &&& final(morale).enemies_killed == old(morale).enemies_killed
        },
{
    if pressed {
        let cast = match cursor {
            None => None,
            Some(c) => match data.selected {
                PlayerSpell::Fireball => {
                    if data.cooldowns.fireball.finished() {
                        data.cooldowns.fireball.reset();
                        Some(fireball_cast(player, &c))
                    } else {
                        None
                    }
                },
                PlayerSpell::LightningStrike => {
                    if data.cooldowns.lightning_strike.finished() {
                        data.cooldowns.lightning_strike.reset();
                        Some(
                            SpellCast::LightningStrike {
                                start: Vec2 { x: c.x, y: c.y + BOLT_HEIGHT },
                                end_y: c.y,
                            },
                        )
                    } else {
                        None
                    }
                },
                PlayerSpell::FearWave => {
                    if data.cooldowns.fear_wave.finished() {
                        data.cooldowns.fear_wave.reset();
                        Some(
                            SpellCast::FearWave {
                                velocity: c.sub(player).scale_to(FEAR_WAVE_SPEED),
                                hit: DamagesEnemy { damage: FEAR_WAVE_DAMAGE, induces_fear: true },
                                lifetime_ms: FEAR_WAVE_LIFETIME_MS,
                            },
                        )
                    } else {
                        None
                    }
                },
            },
        };
        data.no_shoot_delay.reset();
        data.no_shoot_penalty.reset();
        cast
    } else {
        data.no_shoot_delay.tick(delta);
        if data.no_shoot_delay.finished() {
            data.no_shoot_penalty.tick(delta);
            if data.no_shoot_penalty.just_finished() {
                morale.change = morale.change - IDLE_MORALE;
            }
        }
        None
    }
}

/// Advances every spell's cooldown, whichever is selected.
pub fn tick_attack_cooldowns(data: &mut PlayerSpellData, delta: u64)
    requires
        old(data).wf(),
        delta <= MAX_TICK_MS,
    ensures
        final(data).wf(),
        final(data).selected == old(data).selected,
        final(data).no_shoot_delay == old(data).no_shoot_delay,
        final(data).no_shoot_penalty == old(data).no_shoot_penalty,
        final(data).cooldowns.fireball == old(data).cooldowns.fireball.ticked(delta),
        final(data).cooldowns.lightning_strike == old(data).cooldowns.lightning_strike.ticked(delta),
        final(data).cooldowns.fear_wave == old(data).cooldowns.fear_wave.ticked(delta),
{
    data.cooldowns.tick_all(delta);
}

/// Steps the selected spell forward (or, failing that, back) when asked,
/// and reports the new selection.
pub fn switch_active_spell(data: &mut PlayerSpellData, next_pressed: bool, previous_pressed: bool) -> (r:
    Option<ChangeSpellEvent>)
    ensures
        next_pressed ==> final(data).selected == next_spell(old(data).selected) && r == Some(
            ChangeSpellEvent(final(data).selected),
        ),
        !next_pressed && previous_pressed ==> final(data).selected == previous_spell(old(data).selected)
            && r == Some(ChangeSpellEvent(final(data).selected)),
        !next_pressed && !previous_pressed ==> final(data).selected == old(data).selected && r is None,
        final(data).cooldowns == old(data).cooldowns,
        final(data).no_shoot_delay == old(data).no_shoot_delay,
        final(data).no_shoot_penalty == old(data).no_shoot_penalty,
{
    if next_pressed {
        data.selected = data.selected.next();
        Some(ChangeSpellEvent(data.selected))
    } else if previous_pressed {
        data.selected = data.selected.previous();
        Some(ChangeSpellEvent(data.selected))
    } else {
        None
    }
}

pub open spec fn damage_total(s: Seq<DamagePlayerEvent>) -> int
    decreases s.len(),
{
    if s.len() == 0 {
        0
    } else {
        damage_total(s.drop_last()) + s.last().0
    }
}

/// Applies the frame's blows to the player and the day's damage tally.
/// Returns whether the player was hit, and the end of the day when the
/// player's health is gone.
pub fn register_player_damage(health: &mut Health, damages: &Vec<DamagePlayerEvent>, day: &mut CurrentDay) -> (r: (
    bool,
    Option<EndDayEvent>,
))
    requires
        forall|k: int| 0 <= k < damages@.len() ==> 0 <= (#[trigger] damages@[k]).0 <= AMOUNT_LIMIT,
        -AMOUNT_LIMIT <= old(health).current <= AMOUNT_LIMIT,
        old(day).wf(),
        old(day).player_damaged + damage_total(damages@) <= AMOUNT_LIMIT,
        old(health).current - damage_total(damages@) >= -AMOUNT_LIMIT,
    ensures
        final(health).current == old(health).current - damage_total(damages@),
        final(health).maximum == old(health).maximum,
        final(day).player_damaged == old(day).player_damaged + damage_total(damages@),
        final(day).day == old(day).day,
        final(day).wf(),
        r.0 == (damages@.len() > 0),
        r.1 == (if final(health).current <= 0 {
            Some(EndDayEvent { reason: DayEndReason::PlayerDeath })
        } else {
            None
        }),
{
    proof {
        lemma_total_prefix(damages@, 0);
        assert(damages@.take(0).len() == 0);
    }
    let mut i: usize = 0;
    while i < damages.len()
        invariant
            0 <= i <= damages@.len(),
            forall|k: int| 0 <= k < damages@.len() ==> 0 <= (#[trigger] damages@[k]).0 <= AMOUNT_LIMIT,
            old(day).player_damaged + damage_total(damages@) <= AMOUNT_LIMIT,
            old(health).current - damage_total(damages@) >= -AMOUNT_LIMIT,
            -AMOUNT_LIMIT <= old(health).current <= AMOUNT_LIMIT,
            old(day).wf(),
            health.current == old(health).current - damage_total(damages@.take(i as int)),
            health.maximum == old(health).maximum,
            day.player_damaged == old(day).player_damaged + damage_total(damages@.take(i as int)),
            day.day == old(day).day,
            0 <= damage_total(damages@.take(i as int)) <= damage_total(damages@),
        decreases damages@.len() - i,
    {
        proof {
            assert(damages@.take(i + 1).drop_last() =~= damages@.take(i as int));
            lemma_total_prefix(damages@, i + 1);
        }
        let d = damages[i].0;
        day.player_damaged = day.player_damaged + d;
        health.current = health.current - d;
        i = i + 1;
    }
    proof {
        assert(damages@.take(damages@.len() as int) =~= damages@);
    }
    let ended = if health.current <= 0 {
        Some(EndDayEvent { reason: DayEndReason::PlayerDeath })
    } else {
        None
    };
    (damages.len() > 0, ended)
}

proof fn lemma_total_prefix(s: Seq<DamagePlayerEvent>, i: int)
    requires
        0 <= i <= s.len(),
        forall|k: int| 0 <= k < s.len() ==> 0 <= (#[trigger] s[k]).0,
    ensures
        0 <= damage_total(s.take(i)) <= damage_total(s),
    decreases s.len() - i,
{
    if i == s.len() {
        assert(s.take(i) =~= s);
        lemma_total_nonneg(s);
    } else {
        assert(s.take(i + 1).drop_last() =~= s.take(i));
        lemma_total_prefix(s, i + 1);
        lemma_total_nonneg(s.take(i));
    }
}

proof fn lemma_total_nonneg(s: Seq<DamagePlayerEvent>)
    requires
        forall|k: int| 0 <= k < s.len() ==> 0 <= (#[trigger] s[k]).0,
    ensures
        0 <= damage_total(s),
    decreases s.len(),
{
    if s.len() > 0 {
        let r = s.drop_last();
        assert forall|k: int| 0 <= k < r.len() implies 0 <= (#[trigger] r[k]).0 by {
            assert(r[k] == s[k]);
        }
        lemma_total_nonneg(r);
    }
}

pub open spec fn impact_at(x: i64, end_y: i64) -> Impact {
    Impact {
        at: Vec2 { x, y: end_y },
        primary: DamagesEnemy { damage: LIGHTNING_DAMAGE, induces_fear: true },
        splash: DamagesEnemy { damage: LIGHTNING_SPLASH, induces_fear: true },
        lifetime_ms: LIGHTNING_LIFETIME_MS,
    }
}

/// One frame of a lightning bolt falling at `pos`: its new height, and the
/// explosion it sets off, right under it at its target height, once it has
/// reached that height.
pub fn update_lightning_bolt(pos: &Vec2, bolt: &LightningStrikeBolt, delta: u64) -> (r: (i64, Option<Impact>))
    requires
        -WORLD_LIMIT <= pos.y <= WORLD_LIMIT,
        delta <= 1_000_000,
    ensures
        r.0 == pos.y - BOLT_FALL_PER_MS * delta,
        r.1 == (if r.0 <= bolt.end_y {
            Some(impact_at(pos.x, bolt.end_y))
        } else {
            None
        }),
{
    let fallen = pos.y - BOLT_FALL_PER_MS * (delta as i64);
    if fallen <= bolt.end_y {
        (
            fallen,
            Some(
                Impact {
                    at: Vec2 { x: pos.x, y: bolt.end_y },
                    primary: DamagesEnemy { damage: LIGHTNING_DAMAGE, induces_fear: true },
                    splash: DamagesEnemy { damage: LIGHTNING_SPLASH, induces_fear: true },
                    lifetime_ms: LIGHTNING_LIFETIME_MS,
                },
            ),
        )
    } else {
        (fallen, None)
    }
}

/// Which way the player's sprite faces after a move.
#[derive(Clone, Copy, Debug, PartialEq, Eq, Structural)]
pub enum Facing {
    Left,
    Right,
    Unchanged,
}

/// One frame of movement from the held direction keys.
pub fn player_move(pos: &Vec2, left: bool, right: bool, up: bool, down: bool) -> (r: (Vec2, Facing))
    requires
        in_world(*pos),
    ensures
        r.0.x == pos.x - (if left { PLAYER_STEP } else { 0 }) + (if right { PLAYER_STEP } else { 0 }),
        r.0.y == pos.y + (if up { PLAYER_STEP } else { 0 }) - (if down { PLAYER_STEP } else { 0 }),
        r.1 == (if right {
            Facing::Right
        } else if left {
            Facing::Left
        } else {
            Facing::Unchanged
        }),
{
    let mut p = *pos;
    let mut facing = Facing::Unchanged;
    if left {
        p.x = p.x - PLAYER_STEP;
        facing = Facing::Left;
    }
    if right {
        p.x = p.x + PLAYER_STEP;
        facing = Facing::Right;
    }
    if up {
        p.y = p.y + PLAYER_STEP;
    }
    if down {
        p.y = p.y - PLAYER_STEP;
    }
    (p, facing)
}

/// The colour the health bar takes.
#[derive(Clone, Copy, Debug, PartialEq, Eq, Structural)]
pub enum HealthTone {
    /// Within three points of full.
    Full,
    /// A quarter or less.
    Low,
    Normal,
}

/// The health bar's width (in thousandths of its full width) and colour.
pub fn health_bar(health: &Health) -> (r: (i64, HealthTone))
    requires
        0 < health.maximum <= AMOUNT_LIMIT,
        -AMOUNT_LIMIT <= health.current <= AMOUNT_LIMIT,
    ensures
        r.0 == (if health.current <= 0 { 0 } else { health.current * 1000 / health.maximum as int }),
        r.1 == (if health.current >= health.maximum - 3_000 {
            HealthTone::Full
        } else if 4 * health.current <= health.maximum {
            HealthTone::Low
        } else {
            HealthTone::Normal
        }),
{
    let width = if health.current <= 0 {
        0
    } else {
        proof {
            assert(health.current * 1000 <= AMOUNT_LIMIT * 1000) by (nonlinear_arith)
                requires 0 < health.current <= AMOUNT_LIMIT;
        }
        health.current * 1000 / health.maximum
    };
    let tone = if health.current >= health.maximum - 3_000 {
        HealthTone::Full
    } else if 4 * health.current <= health.maximum {
        HealthTone::Low
    } else {
        HealthTone::Normal
    };
    (width, tone)
}

/// Advances the day's clock; the day ends when it runs out.
pub fn update_timer(time: &mut CurrentTime, delta: u64) -> (r: Option<EndDayEvent>)
    requires
        old(time).0.wf(),
        delta <= MAX_TICK_MS,
    ensures
        final(time).0 == old(time).0.ticked(delta),
        final(time).0.wf(),
        r == (if final(time).0.finished {
            Some(EndDayEvent { reason: DayEndReason::Timeout })
        } else {
            None
        }),
{
    time.0.tick(delta);
    if time.0.finished() {
        Some(EndDayEvent { reason: DayEndReason::Timeout })
    } else {
        None
    }
}

/// Starts the day's clock and waves afresh.
pub fn reset_timer(time: &mut CurrentTime, manager: &mut WaveManager)
    requires
        old(time).0.wf(),
        old(manager).wave_timer.wf(),
    ensures
        final(time).0 == old(time).0.reset_spec(),
        final(manager).active_waves == 0,
        final(manager).max_waves == old(manager).max_waves,
        final(manager).wave_timer == old(manager).wave_timer.reset_spec(),
{
    time.0.reset();
    reset_waves(manager);
}

/// The frame an animation shows after `index`, wrapping round.
pub fn next_frame(index: usize, frames: usize) -> (r: usize)
    requires
        frames > 0,
        index < frames,
    ensures
        r == (index + 1) % (frames as int),
{
    (index + 1) % frames
}

} // verus!
