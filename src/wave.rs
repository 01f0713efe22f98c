//! Waves of enemies: the formations they spawn in, the timer and cap that
//! gate them, and the per-frame sweep that removes the dead and the escaped
//! and keeps each wave's count of remaining enemies.
use vstd::prelude::*;
use itertools::Itertools;
use crate::common::{DamagesPlayer, Health};
use crate::enemy::{
    all_wf, lemma_short_is_bounded, lemma_zero_len, velocity_ok, Enemy, EnemyAI, EnemyUnit, ESCAPE_Y,
    WORLD_LIMIT,
};
use crate::morale::EnemyMorale;
use crate::random::{roll_below, roll_i64, roll_u32};
use crate::timer::{Timer, MAX_TICK_MS};
use crate::vector::{len_sq, lemma_scale_lower, lemma_vlen, scale_spec, vlen, zero, Vec2};

verus! {

pub const KNIGHT_SPEED: i64 = 120_000;

pub const KNIGHT_HEALTH: i64 = 3_000;

pub const KNIGHT_FEAR: i64 = 2_500;

pub const KNIGHT_DAMAGE: i64 = 1_000;

/// Milliseconds between a touching knight's blows.
pub const KNIGHT_BLOW_MS: u64 = 1_500;

pub const ARCHER_HEALTH: i64 = 3_000;

pub const ARCHER_FEAR: i64 = 1_500;

/// An archer's speed when it marches in.
pub const ARCHER_MARCH: i64 = 180_000;

/// Length of the upward part of a marching archer's heading.
pub const ARCHER_HEADING: i64 = 100_000;

/// Largest sideways part of that heading: the heading is off vertical by at
/// most a hundred-and-twenty-eighth of a half turn.
pub const ARCHER_TILT: i64 = 2_455;

/// Milliseconds between an archer's shots.
pub const ARCHER_SHOT_MS: u64 = 2_000;

/// The row where formations start, below the bottom of the screen.
pub const SPAWN_Y: i64 = -432_000;

/// Horizontal step between columns of a formation.
pub const COLUMN_STEP: i64 = 20_000;

/// Vertical step between rows of a formation.
pub const ROW_STEP: i64 = 30_000;

/// Largest width or height of a formation.
pub const MAX_FORMATION: u32 = 1_000;

/// Largest count of enemies in a line.
pub const MAX_LINE: u32 = 100_000;

/// Morale lost for each enemy killed.
pub const KILL_MORALE: i64 = 50;

/// Morale gained for an escaped enemy that was still healthy.
pub const HEALTHY_ESCAPE_MORALE: i64 = 50;

/// Morale gained for an escaped enemy that was badly hurt.
pub const WOUNDED_ESCAPE_MORALE: i64 = 150;

/// Counts the enemies of one wave that are still on the field.
#[derive(Clone, Copy, Debug, PartialEq, Eq, Structural)]
pub struct WaveCore {
    pub id: u64,
    pub remaining: u32,
}

/// Gates new waves: one may start when the timer has run out and fewer than
/// `max_waves` are active.
#[derive(Clone, Copy, Debug, PartialEq, Eq, Structural)]
pub struct WaveManager {
    pub active_waves: u32,
    pub max_waves: u32,
    pub wave_timer: Timer,
}

pub open spec fn knight(entity: u64, position: Vec2, core: u64) -> EnemyUnit {
    EnemyUnit {
        entity,
        enemy: Enemy {
            ai: EnemyAI::ChasesPlayer { speed: KNIGHT_SPEED },
            wave_core: Some(core),
            fear_threshold: KNIGHT_FEAR,
        },
        health: Health { current: KNIGHT_HEALTH, maximum: KNIGHT_HEALTH },
        position,
        velocity: zero(),
        contact: Some(
            DamagesPlayer {
                damage: KNIGHT_DAMAGE,
                tick: Timer::from_millis_spec(KNIGHT_BLOW_MS, true),
                is_damaging: false,
            },
        ),
        shoot_timer: None,
    }
}

/// The heading of a marching archer: up, tilted sideways by `tilt` in
/// `ARCHER_HEADING`.
pub open spec fn archer_heading(tilt: i64) -> Vec2 {
    Vec2 { x: tilt, y: ARCHER_HEADING }
}

pub open spec fn archer(entity: u64, position: Vec2, core: u64, y_offset: i64, tilt: i64) -> EnemyUnit {
    EnemyUnit {
        entity,
        enemy: Enemy {
            ai: EnemyAI::Archer { target_y: (position.y + y_offset) as i64 },
            wave_core: Some(core),
            fear_threshold: ARCHER_FEAR,
        },
        health: Health { current: ARCHER_HEALTH, maximum: ARCHER_HEALTH },
        position,
        velocity: scale_spec(archer_heading(tilt), ARCHER_MARCH as int),
        contact: None,
        shoot_timer: Some(Timer::from_millis_spec(ARCHER_SHOT_MS, true)),
    }
}

/// Where the enemy in column `x` and row `y` of a formation stands.
pub open spec fn grid_position(start_x: i64, x: int, y: int) -> Vec2 {
    Vec2 { x: (start_x + COLUMN_STEP * x) as i64, y: (SPAWN_Y - ROW_STEP * y) as i64 }
}

/// Where the `i`-th of `n` enemies in a line stands: evenly across the screen.
pub open spec fn line_position(i: int, n: int) -> Vec2 {
    Vec2 { x: (i * 960_000 / n - 480_000) as i64, y: SPAWN_Y }
}

pub fn spawn_knight(entity: u64, position: Vec2, core: u64) -> (r: EnemyUnit)
    ensures
        r == knight(entity, position, core),
{
    EnemyUnit {
        entity,
        enemy: Enemy {
            ai: EnemyAI::ChasesPlayer { speed: KNIGHT_SPEED },
            wave_core: Some(core),
            fear_threshold: KNIGHT_FEAR,
        },
        health: Health::full(KNIGHT_HEALTH),
        position,
        velocity: Vec2 { x: 0, y: 0 },
        contact: Some(
            DamagesPlayer {
                damage: KNIGHT_DAMAGE,
                tick: Timer::from_millis(KNIGHT_BLOW_MS, true),
                is_damaging: false,
            },
        ),
        shoot_timer: None,
    }
}

/// An archer marching up at its march speed along a heading tilted
/// sideways by `tilt`, which parks `y_offset` above where it starts.
pub fn spawn_archer(entity: u64, position: Vec2, core: u64, y_offset: i64, tilt: i64) -> (r: EnemyUnit)
    requires
        i64::MIN <= position.y + y_offset <= i64::MAX,
        -ARCHER_TILT <= tilt <= ARCHER_TILT,
    ensures
        r == archer(entity, position, core, y_offset, tilt),
        ARCHER_MARCH * ARCHER_MARCH - 67 * ARCHER_MARCH <= len_sq(r.velocity) <= ARCHER_MARCH * ARCHER_MARCH,
        velocity_ok(r.velocity),
{
    let heading = Vec2 { x: tilt, y: ARCHER_HEADING };
    proof {
        lemma_vlen(heading);
        assert(len_sq(heading) >= 100_000 * 100_000) by (nonlinear_arith)
            requires heading.y == 100_000, len_sq(heading) == heading.x * heading.x + heading.y * heading.y;
        assert(vlen(heading) >= 32_000) by (nonlinear_arith)
            requires
                vlen(heading) * vlen(heading) >= len_sq(heading),
                len_sq(heading) >= 100_000 * 100_000,
                vlen(heading) >= 0;
        lemma_scale_lower(heading, ARCHER_MARCH as int);
    }
    let velocity = heading.scale_to(ARCHER_MARCH);
    proof {
        lemma_short_is_bounded(velocity, ARCHER_MARCH as int);
    }
    EnemyUnit {
        entity,
        enemy: Enemy {
            ai: EnemyAI::Archer { target_y: position.y + y_offset },
            wave_core: Some(core),
            fear_threshold: ARCHER_FEAR,
        },
        health: Health::full(ARCHER_HEALTH),
        position,
        velocity,
        contact: None,
        shoot_timer: Some(Timer::from_millis(ARCHER_SHOT_MS, true)),
    }
}

/// Relies on itertools' cartesian_product: every (column, row) pair, the
/// columns outermost.
#[verifier::external_body]
fn grid_cells(width: u32, height: u32) -> (r: Vec<(u32, u32)>)
    requires
        width <= MAX_FORMATION,
        height <= MAX_FORMATION,
    ensures
        r@.len() == width * height,
        forall|k: int|
            0 <= k < r@.len() ==> #[trigger] r@[k] == ((k / (height as int)) as u32, (k % (height as int)) as u32),
{
    (0..width).cartesian_product(0..height).collect()
}

pub open spec fn start_ok(start_x: i64) -> bool {
    -WORLD_LIMIT / 2 <= start_x <= WORLD_LIMIT / 2
}

pub open spec fn knight_square(width: u32, height: u32, start_x: i64, core: u64, first_entity: u64) -> Seq<
    EnemyUnit,
> {
    Seq::new(
        (width * height) as nat,
        |k: int|
            knight(
                (first_entity + k) as u64,
                grid_position(start_x, k / (height as int), k % (height as int)),
                core,
            ),
    )
}

proof fn lemma_cell_bounds(k: int, width: u32, height: u32)
    requires
        0 <= k < width * height,
        width <= MAX_FORMATION,
        height <= MAX_FORMATION,
    ensures
        0 <= k / (height as int) < width,
        0 <= k % (height as int) < height,
{
    assert(height > 0) by (nonlinear_arith)
        requires 0 <= k < width * height, width >= 0, height >= 0;
    assert(0 <= k / (height as int) < width) by (nonlinear_arith)
        requires 0 <= k < width * height, height > 0;
}

/// A block of knights `width` columns by `height` rows, the columns
/// `COLUMN_STEP` apart from `start_x`, all counting toward wave `core`.
pub fn spawn_knight_square_wave(width: u32, height: u32, start_x: i64, core: u64, first_entity: u64) -> (r: (
    WaveCore,
    Vec<EnemyUnit>,
))
    requires
        width <= MAX_FORMATION,
        height <= MAX_FORMATION,
        start_ok(start_x),
        first_entity + width * height <= u64::MAX,
    ensures
        r.0 == (WaveCore { id: core, remaining: (width * height) as u32 }),
        r.1@ == knight_square(width, height, start_x, core, first_entity),
        all_wf(r.1@),
{
    proof {
        assert(width * height <= MAX_FORMATION * MAX_FORMATION) by (nonlinear_arith)
            requires width <= MAX_FORMATION, height <= MAX_FORMATION;
    }
    let cells = grid_cells(width, height);
    let mut units: Vec<EnemyUnit> = Vec::new();
    let mut k: usize = 0;
    while k < cells.len()
        invariant
            0 <= k <= cells@.len(),
            cells@.len() == width * height,
            width * height <= MAX_FORMATION * MAX_FORMATION,
            width <= MAX_FORMATION,
            height <= MAX_FORMATION,
            start_ok(start_x),
            first_entity + width * height <= u64::MAX,
            forall|j: int|
                0 <= j < cells@.len() ==> #[trigger] cells@[j] == ((j / (height as int)) as u32, (j
                    % (height as int)) as u32),
            units@ == knight_square(width, height, start_x, core, first_entity).take(k as int),
            all_wf(units@),
        decreases cells@.len() - k,
    {
        let (x, y) = cells[k];
        proof {
            lemma_cell_bounds(k as int, width, height);
            lemma_zero_len();
        }
        let pos = Vec2 {
            x: start_x + COLUMN_STEP * (x as i64),
            y: SPAWN_Y - ROW_STEP * (y as i64),
        };
        let u = spawn_knight(first_entity + k as u64, pos, core);
        units.push(u);
        proof {
            assert(units@ =~= knight_square(width, height, start_x, core, first_entity).take(k + 1));
        }
        k = k + 1;
    }
    proof {
        assert(units@ =~= knight_square(width, height, start_x, core, first_entity));
    }
    (WaveCore { id: core, remaining: width * height }, units)
}

pub open spec fn archer_square(width: u32, height: u32, start_x: i64, core: u64, first_entity: u64, tilt: Seq<i64>) -> Seq<
    EnemyUnit,
> {
    Seq::new(
        (width * height) as nat,
        |k: int|
            archer(
                (first_entity + k) as u64,
                grid_position(start_x, k / (height as int), k % (height as int)),
                core,
                ((height + 2) * ROW_STEP) as i64,
                tilt[k],
            ),
    )
}

/// A block of archers `width` by `height`; archer `k` marches along a
/// heading tilted by `tilt[k]`, and all park a distance that grows with the
/// block's height above where they start.
pub fn spawn_archer_square_wave(
    width: u32,
    height: u32,
    start_x: i64,
    core: u64,
    first_entity: u64,
    tilt: &Vec<i64>,
) -> (r: (WaveCore, Vec<EnemyUnit>))
    requires
        width <= MAX_FORMATION,
        height <= MAX_FORMATION,
        start_ok(start_x),
        first_entity + width * height <= u64::MAX,
        tilt@.len() == width * height,
        forall|k: int| 0 <= k < tilt@.len() ==> -ARCHER_TILT <= #[trigger] tilt@[k] <= ARCHER_TILT,
    ensures
        r.0 == (WaveCore { id: core, remaining: (width * height) as u32 }),
        r.1@ == archer_square(width, height, start_x, core, first_entity, tilt@),
        all_wf(r.1@),
{
    proof {
        assert(width * height <= MAX_FORMATION * MAX_FORMATION) by (nonlinear_arith)
            requires width <= MAX_FORMATION, height <= MAX_FORMATION;
    }
    let cells = grid_cells(width, height);
    let y_offset = (height as i64 + 2) * ROW_STEP;
    let mut units: Vec<EnemyUnit> = Vec::new();
    let mut k: usize = 0;
    while k < cells.len()
        invariant
            0 <= k <= cells@.len(),
            cells@.len() == width * height,
            tilt@.len() == width * height,
            width * height <= MAX_FORMATION * MAX_FORMATION,
            width <= MAX_FORMATION,
            height <= MAX_FORMATION,
            y_offset == (height + 2) * ROW_STEP,
            start_ok(start_x),
            first_entity + width * height <= u64::MAX,
            forall|k: int| 0 <= k < tilt@.len() ==> -ARCHER_TILT <= #[trigger] tilt@[k] <= ARCHER_TILT,
            forall|j: int|
                0 <= j < cells@.len() ==> #[trigger] cells@[j] == ((j / (height as int)) as u32, (j
                    % (height as int)) as u32),
            units@ == archer_square(width, height, start_x, core, first_entity, tilt@).take(k as int),
            all_wf(units@),
        decreases cells@.len() - k,
    {
        let (x, y) = cells[k];
        proof {
            lemma_cell_bounds(k as int, width, height);
        }
        let pos = Vec2 {
            x: start_x + COLUMN_STEP * (x as i64),
            y: SPAWN_Y - ROW_STEP * (y as i64),
        };
        let u = spawn_archer(first_entity + k as u64, pos, core, y_offset, tilt[k]);
        units.push(u);
        proof {
            assert(units@ =~= archer_square(width, height, start_x, core, first_entity, tilt@).take(k + 1));
        }
        k = k + 1;
    }
    proof {
        assert(units@ =~= archer_square(width, height, start_x, core, first_entity, tilt@));
    }
    (WaveCore { id: core, remaining: width * height }, units)
}

pub open spec fn knight_line(n: u32, core: u64, first_entity: u64) -> Seq<EnemyUnit> {
    Seq::new(n as nat, |i: int| knight((first_entity + i) as u64, line_position(i, n as int), core))
}

/// A line of `n` knights spread evenly across the width of the screen.
pub fn spawn_knight_line_wave(n: u32, core: u64, first_entity: u64) -> (r: (WaveCore, Vec<EnemyUnit>))
    requires
        0 < n <= MAX_LINE,
        first_entity + n <= u64::MAX,
    ensures
        r.0 == (WaveCore { id: core, remaining: n }),
        r.1@ == knight_line(n, core, first_entity),
        all_wf(r.1@),
{
    let mut units: Vec<EnemyUnit> = Vec::new();
    let mut i: u32 = 0;
    while i < n
        invariant
            0 <= i <= n,
            0 < n <= MAX_LINE,
            first_entity + n <= u64::MAX,
            units@ == knight_line(n, core, first_entity).take(i as int),
            all_wf(units@),
        decreases n - i,
    {
        proof {
            assert(0 <= (i as int) * 960_000 <= (n as int) * 960_000) by (nonlinear_arith)
                requires 0 <= i <= n;
            assert(0 <= ((i as int) * 960_000) / (n as int) <= 960_000) by (nonlinear_arith)
                requires 0 <= (i as int) * 960_000 <= (n as int) * 960_000, n > 0;
            lemma_zero_len();
        }
        let x = (i as i64) * 960_000 / (n as i64) - 480_000;
        let u = spawn_knight(first_entity + i as u64, Vec2 { x, y: SPAWN_Y }, core);
        units.push(u);
        proof {
            assert(units@ =~= knight_line(n, core, first_entity).take(i + 1));
        }
        i = i + 1;
    }
    proof {
        assert(units@ =~= knight_line(n, core, first_entity));
    }
    (WaveCore { id: core, remaining: n }, units)
}


/// A spawned wave's enemies: well formed, counting toward `core`, and
/// numbered from `first_entity` on.
pub open spec fn wave_units_ok(units: Seq<EnemyUnit>, core: u64, first_entity: u64) -> bool {
    &&& all_wf(units)
    &&& forall|k: int|
        0 <= k < units.len() ==> (#[trigger] units[k]).enemy.wave_core == Some(core) && units[k].entity
            == first_entity + k
}

proof fn lemma_square_refs(units: Seq<EnemyUnit>, width: u32, height: u32, start_x: i64, core: u64, first_entity: u64)
    requires
        units == knight_square(width, height, start_x, core, first_entity),
        first_entity + width * height <= u64::MAX,
    ensures
        forall|k: int|
            0 <= k < units.len() ==> (#[trigger] units[k]).enemy.wave_core == Some(core) && units[k].entity
                == first_entity + k,
{
}

/// The three kinds of wave.
#[derive(Clone, Copy, Debug, PartialEq, Eq, Structural)]
pub enum WaveKind {
    KnightLine,
    KnightSquare,
    ArcherSquare,
}

/// How often each kind of wave is drawn, relative to the others.
#[derive(Clone, Copy, Debug, PartialEq, Eq, Structural)]
pub struct WaveWeights {
    pub knight_line: u32,
    pub knight_square: u32,
    pub archer_square: u32,
}

/// Largest weight of one kind of wave.
pub const MAX_WEIGHT: u32 = 1_000_000;

impl WaveWeights {
    pub open spec fn wf(self) -> bool {
        &&& self.knight_line <= MAX_WEIGHT
        &&& self.knight_square <= MAX_WEIGHT
        &&& self.archer_square <= MAX_WEIGHT
        &&& self.knight_line + self.knight_square + self.archer_square > 0
    }

    pub open spec fn total(self) -> int {
        self.knight_line + self.knight_square + self.archer_square
    }

    /// Every kind equally likely.
    pub fn uniform() -> (r: WaveWeights)
        ensures
            r.wf(),
            r == (WaveWeights { knight_line: 1, knight_square: 1, archer_square: 1 }),
    {
        WaveWeights { knight_line: 1, knight_square: 1, archer_square: 1 }
    }
}

/// The kind that a draw below the weights' total picks: the draws are cut
/// into consecutive stretches, one per kind, as long as its weight.
pub open spec fn kind_of(draw: int, w: WaveWeights) -> WaveKind {
    if draw < w.knight_line {
        WaveKind::KnightLine
    } else if draw < w.knight_line + w.knight_square {
        WaveKind::KnightSquare
    } else {
        WaveKind::ArcherSquare
    }
}

pub fn pick_wave_kind(draw: u32, weights: &WaveWeights) -> (r: WaveKind)
    requires
        weights.wf(),
    ensures
        r == kind_of(draw as int, *weights),
{
    if draw < weights.knight_line {
        WaveKind::KnightLine
    } else if (draw as u64) < weights.knight_line as u64 + weights.knight_square as u64 {
        WaveKind::KnightSquare
    } else {
        WaveKind::ArcherSquare
    }
}

/// `units` is a wave of the given kind, with that kind's size and place:
/// a line of twenty to twenty-five knights; a block of knights four to seven
/// wide and three to five deep, starting within half the screen's width of
/// the centre; or a block of archers three to four wide and two to three
/// deep, starting within three tenths of the screen's width of the centre.
pub open spec fn formation_of(kind: WaveKind, units: Seq<EnemyUnit>, core: u64, first_entity: u64) -> bool {
    match kind {
        WaveKind::KnightLine => exists|n: u32| 20 <= n <= 25 && units == #[trigger] knight_line(n, core, first_entity),
        WaveKind::KnightSquare => exists|w: u32, h: u32, x: i64|
            4 <= w <= 7 && 3 <= h <= 5 && -480_000 <= x <= 480_000 && units == #[trigger] knight_square(
                w,
                h,
                x,
                core,
                first_entity,
            ),
        WaveKind::ArcherSquare => exists|w: u32, h: u32, x: i64, tilt: Seq<i64>|
            3 <= w <= 4 && 2 <= h <= 3 && -288_000 <= x <= 288_000 && tilt.len() == w * h && (forall|k: int|
                0 <= k < tilt.len() ==> -ARCHER_TILT <= #[trigger] tilt[k] <= ARCHER_TILT) && units
                == #[trigger] archer_square(w, h, x, core, first_entity, tilt),
    }
}

/// A wave of the given kind, its size and place drawn at random, its
/// enemies counting toward wave `core` and numbered from `first_entity` on.
pub fn spawn_wave_of_kind(kind: WaveKind, core: u64, first_entity: u64) -> (r: (WaveCore, Vec<EnemyUnit>))
    requires
        first_entity + 100 <= u64::MAX,
    ensures
        formation_of(kind, r.1@, core, first_entity),
        r.0 == (WaveCore { id: core, remaining: r.1@.len() as u32 }),
        6 <= r.1@.len() <= 35,
        wave_units_ok(r.1@, core, first_entity),
{
    match kind {
        WaveKind::KnightLine => {
            let n = roll_u32(20, 25);
            let w = spawn_knight_line_wave(n, core, first_entity);
            proof {
                assert(20 <= n <= 25 && w.1@ == knight_line(n, core, first_entity));
            }
            w
        },
        WaveKind::KnightSquare => {
            let width = roll_u32(4, 7);
            let height = roll_u32(3, 5);
            let start_x = roll_i64(-480_000, 480_000);
            proof {
                assert(12 <= width * height <= 35) by (nonlinear_arith)
                    requires 4 <= width <= 7, 3 <= height <= 5;
            }
            let w = spawn_knight_square_wave(width, height, start_x, core, first_entity);
            proof {
                lemma_square_refs(w.1@, width, height, start_x, core, first_entity);
                assert(w.1@ == knight_square(width, height, start_x, core, first_entity));
            }
            w
        },
        WaveKind::ArcherSquare => {
            let width = roll_u32(3, 4);
            let height = roll_u32(2, 3);
            let start_x = roll_i64(-288_000, 288_000);
            proof {
                assert(6 <= width * height <= 12) by (nonlinear_arith)
                    requires 3 <= width <= 4, 2 <= height <= 3;
            }
            let count = width * height;
            let mut tilt: Vec<i64> = Vec::new();
            let mut k: u32 = 0;
            while k < count
                invariant
                    0 <= k <= count,
                    tilt@.len() == k,
                    forall|j: int| 0 <= j < tilt@.len() ==> -ARCHER_TILT <= #[trigger] tilt@[j] <= ARCHER_TILT,
                decreases count - k,
            {
                tilt.push(roll_i64(-ARCHER_TILT, ARCHER_TILT));
                k = k + 1;
            }
            let w = spawn_archer_square_wave(width, height, start_x, core, first_entity, &tilt);
            proof {
                assert(w.1@ == archer_square(width, height, start_x, core, first_entity, tilt@));
            }
            w
        },
    }
}

/// Advances the wave timer and, when it has run out and another wave may
/// start, draws a kind of wave by the weights, spawns it, counts it as
/// active, and starts the timer over. The wave's enemies take the entities
/// from `first_entity` on and count toward wave `core`.
pub fn spawn_enemy_wave(
    manager: &mut WaveManager,
    delta: u64,
    core: u64,
    first_entity: u64,
    weights: &WaveWeights,
) -> (r: Option<(WaveCore, Vec<EnemyUnit>)>)
    requires
        old(manager).wave_timer.wf(),
        delta <= MAX_TICK_MS,
        first_entity + 100 <= u64::MAX,
        weights.wf(),
    ensures
        final(manager).max_waves == old(manager).max_waves,
        final(manager).wave_timer.wf(),
        ({
            let t = old(manager).wave_timer.ticked(delta);
            if t.finished && old(manager).active_waves < old(manager).max_waves {
                &&& final(manager).active_waves == old(manager).active_waves + 1
                &&& final(manager).wave_timer == t.reset_spec()
                &&& r matches Some(w) && w.0.id == core && w.0.remaining == w.1@.len()
                    && 6 <= w.1@.len() <= 35 && wave_units_ok(w.1@, core, first_entity)
                    && exists|draw: int|
                    0 <= draw < weights.total() && formation_of(
                        #[trigger] kind_of(draw, *weights),
                        w.1@,
                        core,
                        first_entity,
                    )
            } else {
                &&& r is None
                &&& final(manager).active_waves == old(manager).active_waves
                &&& final(manager).wave_timer == t
            }
        }),
{
    manager.wave_timer.tick(delta);
    if !(manager.wave_timer.finished() && manager.active_waves < manager.max_waves) {
        return None;
    }
    let total = weights.knight_line + weights.knight_square + weights.archer_square;
    let draw = roll_below(total);
    let kind = pick_wave_kind(draw, weights);
    let wave = spawn_wave_of_kind(kind, core, first_entity);
    proof {
        assert(0 <= draw < weights.total() && formation_of(kind_of(draw as int, *weights), wave.1@, core, first_entity));
    }
    manager.active_waves = manager.active_waves + 1;
    manager.wave_timer.reset();
    Some(wave)
}

/// Starts a day's waves afresh: none active, the timer from zero.
pub fn reset_waves(manager: &mut WaveManager)
    requires
        old(manager).wave_timer.wf(),
    ensures
        final(manager).active_waves == 0,
        final(manager).max_waves == old(manager).max_waves,
        final(manager).wave_timer == old(manager).wave_timer.reset_spec(),
        final(manager).wave_timer.wf(),
{
    manager.wave_timer.reset();
    manager.active_waves = 0;
}

pub open spec fn killed(u: EnemyUnit) -> bool {
    u.health.current <= 0
}

/// An afraid enemy that got past the escape line alive.
pub open spec fn escaped(u: EnemyUnit) -> bool {
    !killed(u) && u.enemy.ai is Afraid && u.position.y <= ESCAPE_Y
}

pub open spec fn departs(u: EnemyUnit) -> bool {
    killed(u) || escaped(u)
}

pub open spec fn counts_toward(u: EnemyUnit, id: u64) -> bool {
    u.enemy.wave_core == Some(id)
}

/// Morale change that one enemy's leaving brings: a kill lowers it, an
/// escape raises it, the more when the enemy was hurt to its fear threshold.
pub open spec fn morale_effect(u: EnemyUnit) -> int {
    if killed(u) {
        -KILL_MORALE
    } else if escaped(u) {
        if u.health.current > u.enemy.fear_threshold {
            HEALTHY_ESCAPE_MORALE as int
        } else {
            WOUNDED_ESCAPE_MORALE as int
        }
    } else {
        0
    }
}

pub open spec fn survivors(s: Seq<EnemyUnit>) -> Seq<EnemyUnit>
    decreases s.len(),
{
    if s.len() == 0 {
        s
    } else if departs(s.last()) {
        survivors(s.drop_last())
    } else {
        survivors(s.drop_last()).push(s.last())
    }
}

/// Entities of the enemies that leave, in order.
pub open spec fn departed(s: Seq<EnemyUnit>) -> Seq<u64>
    decreases s.len(),
{
    if s.len() == 0 {
        Seq::empty()
    } else if departs(s.last()) {
        departed(s.drop_last()).push(s.last().entity)
    } else {
        departed(s.drop_last())
    }
}

pub open spec fn kills(s: Seq<EnemyUnit>) -> nat
    decreases s.len(),
{
    if s.len() == 0 {
        0
    } else {
        kills(s.drop_last()) + if killed(s.last()) {
            1nat
        } else {
            0nat
        }
    }
}

pub open spec fn morale_total(s: Seq<EnemyUnit>) -> int
    decreases s.len(),
{
    if s.len() == 0 {
        0
    } else {
        morale_total(s.drop_last()) + morale_effect(s.last())
    }
}

/// How many enemies in `s` count toward wave `id`.
pub open spec fn refs(s: Seq<EnemyUnit>, id: u64) -> nat
    decreases s.len(),
{
    if s.len() == 0 {
        0
    } else {
        refs(s.drop_last(), id) + if counts_toward(s.last(), id) {
            1nat
        } else {
            0nat
        }
    }
}

/// How many enemies of wave `id` leave.
pub open spec fn departures(s: Seq<EnemyUnit>, id: u64) -> nat
    decreases s.len(),
{
    if s.len() == 0 {
        0
    } else {
        departures(s.drop_last(), id) + if departs(s.last()) && counts_toward(s.last(), id) {
            1nat
        } else {
            0nat
        }
    }
}

pub open spec fn core_after(c: WaveCore, s: Seq<EnemyUnit>) -> WaveCore {
    WaveCore { remaining: (c.remaining - departures(s, c.id)) as u32, ..c }
}

/// The cores that still count enemies once those of `s` that leave are gone.
pub open spec fn cores_kept(cores: Seq<WaveCore>, s: Seq<EnemyUnit>) -> Seq<WaveCore>
    decreases cores.len(),
{
    if cores.len() == 0 {
        cores
    } else if core_after(cores.last(), s).remaining == 0 {
        cores_kept(cores.drop_last(), s)
    } else {
        cores_kept(cores.drop_last(), s).push(core_after(cores.last(), s))
    }
}

/// The handles of the cores whose waves are over.
pub open spec fn cores_emptied(cores: Seq<WaveCore>, s: Seq<EnemyUnit>) -> Seq<u64>
    decreases cores.len(),
{
    if cores.len() == 0 {
        Seq::empty()
    } else if core_after(cores.last(), s).remaining == 0 {
        cores_emptied(cores.drop_last(), s).push(cores.last().id)
    } else {
        cores_emptied(cores.drop_last(), s)
    }
}

/// Each live core counts exactly the enemies on the field that belong to
/// its wave, and no core counts zero.
pub open spec fn balanced(units: Seq<EnemyUnit>, cores: Seq<WaveCore>) -> bool {
    forall|k: int|
        0 <= k < cores.len() ==> (#[trigger] cores[k]).remaining == refs(units, cores[k].id)
            && cores[k].remaining > 0
}

/// Each live core counts at least the enemies on the field that belong to
/// its wave.
pub open spec fn covered(units: Seq<EnemyUnit>, cores: Seq<WaveCore>) -> bool {
    forall|k: int| 0 <= k < cores.len() ==> (#[trigger] cores[k]).remaining >= refs(units, cores[k].id)
}

proof fn lemma_kept_len(cores: Seq<WaveCore>, units: Seq<EnemyUnit>)
    ensures
        cores_kept(cores, units).len() + cores_emptied(cores, units).len() == cores.len(),
    decreases cores.len(),
{
    if cores.len() > 0 {
        lemma_kept_len(cores.drop_last(), units);
    }
}

/// Every core a sweep keeps still counts some enemy.
proof fn lemma_kept_positive(cores: Seq<WaveCore>, units: Seq<EnemyUnit>)
    ensures
        forall|k: int| 0 <= k < cores_kept(cores, units).len() ==> (#[trigger] cores_kept(cores, units)[k]).remaining > 0,
    decreases cores.len(),
{
    if cores.len() > 0 {
        lemma_kept_positive(cores.drop_last(), units);
        let rest = cores_kept(cores.drop_last(), units);
        if core_after(cores.last(), units).remaining != 0 {
            let now = rest.push(core_after(cores.last(), units));
            assert forall|k: int| 0 <= k < now.len() implies (#[trigger] now[k]).remaining > 0 by {
                if k < rest.len() {
                    assert(now[k] == rest[k]);
                }
            }
        }
    }
}

proof fn lemma_take_last<T>(s: Seq<T>, i: int)
    requires
        0 <= i < s.len(),
    ensures
        s.take(i + 1).drop_last() == s.take(i),
        s.take(i + 1).last() == s[i],
{
    assert(s.take(i + 1).drop_last() =~= s.take(i));
}

proof fn lemma_departures_prefix(s: Seq<EnemyUnit>, id: u64, i: int)
    requires
        0 <= i <= s.len(),
    ensures
        departures(s.take(i), id) <= departures(s, id),
    decreases s.len() - i,
{
    if i == s.len() {
        assert(s.take(i) =~= s);
    } else {
        lemma_take_last(s, i);
        lemma_departures_prefix(s, id, i + 1);
    }
}

proof fn lemma_departures_le_refs(s: Seq<EnemyUnit>, id: u64)
    ensures
        departures(s, id) <= refs(s, id),
    decreases s.len(),
{
    if s.len() > 0 {
        lemma_departures_le_refs(s.drop_last(), id);
    }
}

proof fn lemma_survivor_refs(s: Seq<EnemyUnit>, id: u64)
    ensures
        refs(survivors(s), id) + departures(s, id) == refs(s, id),
    decreases s.len(),
{
    if s.len() > 0 {
        lemma_survivor_refs(s.drop_last(), id);
        let r = survivors(s.drop_last());
        if !departs(s.last()) {
            assert(r.push(s.last()).drop_last() =~= r);
        }
    }
}

proof fn lemma_survivors_stay(s: Seq<EnemyUnit>)
    ensures
        forall|k: int| 0 <= k < survivors(s).len() ==> !departs(#[trigger] survivors(s)[k]),
        survivors(s).len() <= s.len(),
    decreases s.len(),
{
    if s.len() > 0 {
        lemma_survivors_stay(s.drop_last());
        let r = survivors(s.drop_last());
        if !departs(s.last()) {
            assert forall|k: int| 0 <= k < survivors(s).len() implies !departs(#[trigger] survivors(s)[k]) by {
                if k < r.len() {
                    assert(survivors(s)[k] == r[k]);
                }
            }
        }
    }
}

proof fn lemma_kept_balanced(units: Seq<EnemyUnit>, cores: Seq<WaveCore>)
    requires
        forall|k: int| 0 <= k < cores.len() ==> (#[trigger] cores[k]).remaining == refs(units, cores[k].id),
    ensures
        balanced(survivors(units), cores_kept(cores, units)),
        cores_kept(cores, units).len() + cores_emptied(cores, units).len() == cores.len(),
        forall|k: int|
            0 <= k < cores_kept(cores, units).len() ==> exists|j: int|
                0 <= j < cores.len() && #[trigger] cores_kept(cores, units)[k] == core_after(cores[j], units),
    decreases cores.len(),
{
    if cores.len() > 0 {
        let rest = cores.drop_last();
        assert forall|k: int| 0 <= k < rest.len() implies (#[trigger] rest[k]).remaining == refs(units, rest[k].id) by {
            assert(rest[k] == cores[k]);
        }
        lemma_kept_balanced(units, rest);
        let c = cores.last();
        lemma_survivor_refs(units, c.id);
        let kept = cores_kept(rest, units);
        if core_after(c, units).remaining != 0 {
            let now = kept.push(core_after(c, units));
            assert forall|k: int| 0 <= k < now.len() implies (#[trigger] now[k]).remaining == refs(
                survivors(units),
                now[k].id,
            ) && now[k].remaining > 0 by {
                if k < kept.len() {
                    assert(now[k] == kept[k]);
                }
            }
            assert forall|k: int| 0 <= k < now.len() implies exists|j: int|
                0 <= j < cores.len() && #[trigger] now[k] == core_after(cores[j], units) by {
                if k < kept.len() {
                    assert(now[k] == kept[k]);
                    let j = choose|j: int| 0 <= j < rest.len() && kept[k] == core_after(rest[j], units);
                    assert(rest[j] == cores[j]);
                } else {
                    assert(now[k] == core_after(cores[cores.len() - 1], units));
                }
            }
        } else {
            assert forall|k: int| 0 <= k < kept.len() implies exists|j: int|
                0 <= j < cores.len() && #[trigger] kept[k] == core_after(cores[j], units) by {
                let j = choose|j: int| 0 <= j < rest.len() && kept[k] == core_after(rest[j], units);
                assert(rest[j] == cores[j]);
            }
        }
    }
}

pub open spec fn sweep_ok(
    units: Seq<EnemyUnit>,
    cores: Seq<WaveCore>,
    morale: EnemyMorale,
    manager: WaveManager,
) -> bool {
    &&& covered(units, cores)
    &&& morale.enemies_killed + units.len() <= u32::MAX
    &&& -crate::common::AMOUNT_LIMIT + 150 * units.len() <= morale.change
    &&& morale.change <= crate::common::AMOUNT_LIMIT - 150 * units.len()
}

/// Removes every enemy that was killed or escaped, charges the day's morale
/// tally, counts each leaving enemy off its wave, then removes the waves
/// that have no enemy left and counts them off the active waves. Returns
/// the entities of the enemies and of the cores that were removed.
pub fn despawn_enemies(
    units: &mut Vec<EnemyUnit>,
    cores: &mut Vec<WaveCore>,
    morale: &mut EnemyMorale,
    manager: &mut WaveManager,
) -> (r: (Vec<u64>, Vec<u64>))
    requires
        sweep_ok(old(units)@, old(cores)@, *old(morale), *old(manager)),
    ensures
        final(units)@ == survivors(old(units)@),
        final(cores)@ == cores_kept(old(cores)@, old(units)@),
        balanced(old(units)@, old(cores)@) ==> balanced(final(units)@, final(cores)@),
        final(morale).enemies_killed == old(morale).enemies_killed + kills(old(units)@),
        final(morale).change == old(morale).change + morale_total(old(units)@),
        final(morale).current == old(morale).current,
        final(manager).active_waves == (if old(manager).active_waves >= cores_emptied(old(cores)@, old(units)@).len() {
            old(manager).active_waves - cores_emptied(old(cores)@, old(units)@).len()
        } else {
            0
        }),
        final(manager).max_waves == old(manager).max_waves,
        final(manager).wave_timer == old(manager).wave_timer,
        r.0@ == departed(old(units)@),
        r.1@ == cores_emptied(old(cores)@, old(units)@),
{
    let ghost start = units@;
    let ghost start_cores = cores@;
    let mut kept: Vec<EnemyUnit> = Vec::new();
    let mut gone: Vec<u64> = Vec::new();
    let mut i: usize = 0;
    while i < units.len()
        invariant
            0 <= i <= units@.len(),
            units@ == start,
            cores@.len() == start_cores.len(),
            covered(start, start_cores),
            old(morale).enemies_killed + start.len() <= u32::MAX,
            -crate::common::AMOUNT_LIMIT + 150 * start.len() <= old(morale).change,
            old(morale).change <= crate::common::AMOUNT_LIMIT - 150 * start.len(),
            forall|k: int| 0 <= k < cores@.len() ==> #[trigger] cores@[k] == core_after(start_cores[k], start.take(i as int)),
            forall|k: int| 0 <= k < cores@.len() ==> departures(start.take(i as int), #[trigger] start_cores[k].id) <= start_cores[k].remaining,
            kept@ == survivors(start.take(i as int)),
            gone@ == departed(start.take(i as int)),
            morale.enemies_killed == old(morale).enemies_killed + kills(start.take(i as int)),
            morale.change == old(morale).change + morale_total(start.take(i as int)),
            kills(start.take(i as int)) <= i,
            -50 * i <= morale_total(start.take(i as int)) <= 150 * i,
            morale.current == old(morale).current,
        decreases units@.len() - i,
    {
        let u = units[i];
        proof {
            lemma_take_last(start, i as int);
            assert(morale_total(start.take(i + 1)) == morale_total(start.take(i as int)) + morale_effect(start[i as int]));
            assert(-KILL_MORALE <= morale_effect(start[i as int]) <= WOUNDED_ESCAPE_MORALE);
        }
        let leaves = if u.health.current <= 0 {
            morale.enemies_killed = morale.enemies_killed + 1;
            morale.change = morale.change - KILL_MORALE;
            true
        } else if let EnemyAI::Afraid { .. } = u.enemy.ai {
            if u.position.y <= ESCAPE_Y {
                if u.health.current > u.enemy.fear_threshold {
                    morale.change = morale.change + HEALTHY_ESCAPE_MORALE;
                } else {
                    morale.change = morale.change + WOUNDED_ESCAPE_MORALE;
                }
                true
            } else {
                false
            }
        } else {
            false
        };
        if leaves {
            gone.push(u.entity);
            if let Some(id) = u.enemy.wave_core {
                let mut k: usize = 0;
                while k < cores.len()
                    invariant
                        0 <= k <= cores@.len(),
                        cores@.len() == start_cores.len(),
                        0 <= i < start.len(),
                        u == start[i as int],
                        departs(u),
                        u.enemy.wave_core == Some(id),
                        start.take(i + 1).drop_last() == start.take(i as int),
                        start.take(i + 1).last() == start[i as int],
                        covered(start, start_cores),
                        forall|j: int| 0 <= j < k ==> #[trigger] cores@[j] == core_after(start_cores[j], start.take(i + 1)),
                        forall|j: int| k <= j < cores@.len() ==> #[trigger] cores@[j] == core_after(start_cores[j], start.take(i as int)),
                        forall|j: int| 0 <= j < cores@.len() ==> departures(start.take(i as int), #[trigger] start_cores[j].id) <= start_cores[j].remaining,
                    decreases cores@.len() - k,
                {
                    let c = cores[k];
                    proof {
                        assert(cores@[k as int] == core_after(start_cores[k as int], start.take(i as int)));
                        let sid = start_cores[k as int].id;
                        lemma_departures_prefix(start, sid, i + 1);
                        lemma_departures_le_refs(start, sid);
                        assert(start_cores[k as int].remaining >= refs(start, sid));
                    }
                    if c.id == id {
                        cores.set(k, WaveCore { remaining: c.remaining - 1, ..c });
                    }
                    k = k + 1;
                }
            }
        } else {
            kept.push(u);
        }
        proof {
            assert forall|k: int| 0 <= k < cores@.len() implies departures(start.take(i + 1), #[trigger] start_cores[k].id) <= start_cores[k].remaining by {
                let sid = start_cores[k].id;
                lemma_departures_prefix(start, sid, i + 1);
                lemma_departures_le_refs(start, sid);
                assert(start_cores[k].remaining >= refs(start, sid));
            }
            assert forall|k: int| 0 <= k < cores@.len() implies #[trigger] cores@[k] == core_after(start_cores[k], start.take(i + 1)) by {
                if !(leaves && u.enemy.wave_core is Some) {
                    assert(departures(start.take(i + 1), start_cores[k].id) == departures(start.take(i as int), start_cores[k].id));
                }
            }
        }
        i = i + 1;
    }
    proof {
        assert(start.take(start.len() as int) =~= start);
    }
    let mut live: Vec<WaveCore> = Vec::new();
    let mut ended: Vec<u64> = Vec::new();
    let mut k: usize = 0;
    while k < cores.len()
        invariant
            0 <= k <= cores@.len(),
            cores@.len() == start_cores.len(),
            forall|j: int| 0 <= j < cores@.len() ==> #[trigger] cores@[j] == core_after(start_cores[j], start),
            live@ == cores_kept(start_cores.take(k as int), start),
            ended@ == cores_emptied(start_cores.take(k as int), start),
        decreases cores@.len() - k,
    {
        let c = cores[k];
        proof {
            lemma_take_last(start_cores, k as int);
        }
        if c.remaining == 0 {
            ended.push(c.id);
        } else {
            live.push(c);
        }
        k = k + 1;
    }
    proof {
        assert(start_cores.take(start_cores.len() as int) =~= start_cores);
        lemma_kept_len(start_cores, start);
        if balanced(start, start_cores) {
            assert forall|k: int| 0 <= k < start_cores.len() implies (#[trigger] start_cores[k]).remaining == refs(start, start_cores[k].id) by {}
            lemma_kept_balanced(start, start_cores);
        }
    }
    let emptied = ended.len();
    if manager.active_waves as usize >= emptied {
        manager.active_waves = manager.active_waves - emptied as u32;
    } else {
        manager.active_waves = 0;
    }
    *units = kept;
    *cores = live;
    (gone, ended)
}

/// An afraid enemy that escapes alive is no kill: it leaves, counts off
/// its wave once, and raises morale by the smaller bonus while still above
/// its fear threshold, by the larger one at or below it.
pub proof fn lemma_escape_reward(u: EnemyUnit)
    requires
        u.enemy.ai is Afraid,
        u.health.current > 0,
        u.position.y <= ESCAPE_Y,
    ensures
        departs(u),
        kills(seq![u]) == 0,
        departed(seq![u]) == seq![u.entity],
        morale_total(seq![u]) == (if u.health.current > u.enemy.fear_threshold {
            HEALTHY_ESCAPE_MORALE as int
        } else {
            WOUNDED_ESCAPE_MORALE as int
        }),
        HEALTHY_ESCAPE_MORALE < WOUNDED_ESCAPE_MORALE,
        forall|id: u64| #[trigger] departures(seq![u], id) == (if counts_toward(u, id) { 1int } else { 0int }),
{
    let s = seq![u];
    assert(s.drop_last() =~= Seq::<EnemyUnit>::empty());
    assert(s.last() == u);
    assert(departed(s.drop_last()) =~= Seq::<u64>::empty());
    assert(departed(s) =~= seq![u.entity]);
    assert(kills(s.drop_last()) == 0);
    assert(kills(s) == kills(s.drop_last()));
    assert(morale_total(s.drop_last()) == 0);
    assert(morale_total(s) == morale_total(s.drop_last()) + morale_effect(u));
    assert forall|id: u64| #[trigger] departures(s, id) == (if counts_toward(u, id) { 1int } else { 0int }) by {
        assert(departures(s.drop_last(), id) == 0);
    }
}

/// As long as a core counts at least its wave's enemies on the field, a
/// sweep lowers its count by exactly the wave's enemies that leave, never
/// below zero, and it still counts at least those that stay.
pub proof fn lemma_wave_count_drops(units: Seq<EnemyUnit>, cores: Seq<WaveCore>, k: int)
    requires
        covered(units, cores),
        0 <= k < cores.len(),
    ensures
        departures(units, cores[k].id) <= cores[k].remaining,
        core_after(cores[k], units).remaining == cores[k].remaining - departures(units, cores[k].id),
        core_after(cores[k], units).remaining <= cores[k].remaining,
        core_after(cores[k], units).remaining >= refs(survivors(units), cores[k].id),
{
    lemma_departures_le_refs(units, cores[k].id);
    lemma_survivor_refs(units, cores[k].id);
}

/// A wave's count never grows and never goes below zero in a sweep: it
/// drops by the wave's enemies that leave, and afterwards equals the wave's
/// enemies still on the field, so it reaches zero exactly when every enemy
/// of the wave has left.
pub proof fn lemma_wave_counts(units: Seq<EnemyUnit>, cores: Seq<WaveCore>, k: int)
    requires
        balanced(units, cores),
        0 <= k < cores.len(),
    ensures
        departures(units, cores[k].id) <= cores[k].remaining,
        core_after(cores[k], units).remaining == cores[k].remaining - departures(units, cores[k].id),
        core_after(cores[k], units).remaining == refs(survivors(units), cores[k].id),
        (core_after(cores[k], units).remaining == 0) == (refs(survivors(units), cores[k].id) == 0),
{
    lemma_departures_le_refs(units, cores[k].id);
    lemma_survivor_refs(units, cores[k].id);
}

proof fn lemma_quiet(s: Seq<EnemyUnit>)
    requires
        forall|k: int| 0 <= k < s.len() ==> !departs(#[trigger] s[k]),
    ensures
        survivors(s) == s,
        kills(s) == 0,
        morale_total(s) == 0,
        departed(s).len() == 0,
        forall|id: u64| departures(s, id) == 0,
    decreases s.len(),
{
    if s.len() > 0 {
        let r = s.drop_last();
        assert forall|k: int| 0 <= k < r.len() implies !departs(#[trigger] r[k]) by {
            assert(r[k] == s[k]);
        }
        lemma_quiet(r);
        assert(!departs(s[s.len() - 1]));
        assert(r.push(s.last()) =~= s);
        assert forall|id: u64| departures(s, id) == 0 by {
            assert(departures(r, id) == 0);
        }
    }
}

proof fn lemma_cores_stay(cores: Seq<WaveCore>, s: Seq<EnemyUnit>)
    requires
        forall|id: u64| departures(s, id) == 0,
        forall|k: int| 0 <= k < cores.len() ==> (#[trigger] cores[k]).remaining > 0,
    ensures
        cores_kept(cores, s) == cores,
        cores_emptied(cores, s).len() == 0,
    decreases cores.len(),
{
    if cores.len() > 0 {
        let r = cores.drop_last();
        assert forall|k: int| 0 <= k < r.len() implies (#[trigger] r[k]).remaining > 0 by {
            assert(r[k] == cores[k]);
        }
        lemma_cores_stay(r, s);
        assert(core_after(cores.last(), s) == cores.last());
        assert(r.push(cores.last()) =~= cores);
    }
}

/// Sweeping twice with no new deaths in between changes nothing the second
/// time: no enemy leaves, no core is counted down or removed, and the
/// morale tally and the active waves stay as they are.
pub proof fn lemma_sweep_idempotent(units: Seq<EnemyUnit>, cores: Seq<WaveCore>)
    ensures
        survivors(survivors(units)) == survivors(units),
        departed(survivors(units)).len() == 0,
        cores_kept(cores_kept(cores, units), survivors(units)) == cores_kept(cores, units),
        cores_emptied(cores_kept(cores, units), survivors(units)).len() == 0,
        kills(survivors(units)) == 0,
        morale_total(survivors(units)) == 0,
{
    let s = survivors(units);
    lemma_survivors_stay(units);
    lemma_quiet(s);
    lemma_kept_positive(cores, units);
    lemma_cores_stay(cores_kept(cores, units), s);
}

proof fn lemma_refs_concat(a: Seq<EnemyUnit>, b: Seq<EnemyUnit>, id: u64)
    ensures
        refs(a + b, id) == refs(a, id) + refs(b, id),
    decreases b.len(),
{
    if b.len() > 0 {
        lemma_refs_concat(a, b.drop_last(), id);
        assert((a + b).drop_last() =~= a + b.drop_last());
    }
}

proof fn lemma_refs_all(s: Seq<EnemyUnit>, id: u64)
    requires
        forall|k: int| 0 <= k < s.len() ==> (#[trigger] s[k]).enemy.wave_core == Some(id),
    ensures
        refs(s, id) == s.len(),
        forall|other: u64| other != id ==> refs(s, other) == 0,
    decreases s.len(),
{
    if s.len() > 0 {
        let r = s.drop_last();
        assert forall|k: int| 0 <= k < r.len() implies (#[trigger] r[k]).enemy.wave_core == Some(id) by {
            assert(r[k] == s[k]);
        }
        lemma_refs_all(r, id);
        assert forall|other: u64| other != id implies refs(s, other) == 0 by {
            assert(refs(r, other) == 0);
        }
    }
}

/// A new wave joins the field with its counts right: when its core is new
/// (no enemy on the field counts toward it) and counts exactly the wave's
/// enemies, every core still counts exactly its wave's enemies.
pub proof fn lemma_wave_joins(units: Seq<EnemyUnit>, cores: Seq<WaveCore>, wave: Seq<EnemyUnit>, core: WaveCore)
    requires
        balanced(units, cores),
        refs(units, core.id) == 0,
        forall|k: int| 0 <= k < cores.len() ==> (#[trigger] cores[k]).id != core.id,
        forall|k: int| 0 <= k < wave.len() ==> (#[trigger] wave[k]).enemy.wave_core == Some(core.id),
        core.remaining == wave.len(),
        wave.len() > 0,
    ensures
        balanced(units + wave, cores.push(core)),
{
    lemma_refs_all(wave, core.id);
    let all = cores.push(core);
    assert forall|k: int| 0 <= k < all.len() implies (#[trigger] all[k]).remaining == refs(units + wave, all[k].id)
        && all[k].remaining > 0 by {
        lemma_refs_concat(units, wave, all[k].id);
        if k < cores.len() {
            assert(all[k] == cores[k]);
        }
    }
}

} // verus!
