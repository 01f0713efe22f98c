//! Enemies and their steering: seek with arrival and neighbour avoidance for
//! chasers, parking for archers, retreat and flight for the afraid.
use vstd::prelude::*;
use crate::common::{AMOUNT_LIMIT, DamagesEnemy, DamagesPlayer, Health};
use crate::timer::Timer;
use crate::vector::{
    add_spec, clamp_spec, div_trunc, in_limits, len_sq, lemma_vlen, scale_spec, sub_spec, vlen, zero, Vec2,
};

verus! {

/// Bound on each coordinate of an enemy's or the player's position.
pub const WORLD_LIMIT: i64 = 100_000_000;

/// Bound on an enemy's speed.
pub const SPEED_LIMIT: i64 = 1_000_000;

/// Bound on each component of an enemy's velocity.
pub const VELOCITY_LIMIT: i64 = 10_000_000;

/// Within this distance of the player a chaser wants to stand still.
pub const ARRIVAL_RADIUS: i64 = 32_000;

/// Only enemies this close are considered as obstacles.
pub const NEIGHBOUR_RADIUS: i64 = 40_000;

/// Radius of the circle that a look-ahead sample must hit.
pub const OBSTACLE_RADIUS: i64 = 20_000;

/// Largest steering change per update.
pub const MAX_STEERING: i64 = 6_000;

/// How much an archer slows down per update once past its line.
pub const ARCHER_BRAKE: i64 = 15_000;

/// At or below this line (six tenths of the screen height below the centre)
/// an afraid enemy has escaped.
pub const ESCAPE_Y: i64 = -432_000;

#[derive(Clone, Copy, Debug, PartialEq, Eq, Structural)]
pub enum EnemyAI {
    ChasesPlayer { speed: i64 },
    Archer { target_y: i64 },
    Afraid { speed: i64 },
}

#[derive(Clone, Copy, Debug, PartialEq, Eq, Structural)]
pub struct Enemy {
    pub ai: EnemyAI,
    /// Handle of the wave core this enemy counts toward, if any.
    pub wave_core: Option<u64>,
    /// Health at or below which the enemy shows fear.
    pub fear_threshold: i64,
}

/// An enemy on the field with the parts of it that the simulation reads.
#[derive(Clone, Copy, Debug, PartialEq, Eq, Structural)]
pub struct EnemyUnit {
    pub entity: u64,
    pub enemy: Enemy,
    pub health: Health,
    pub position: Vec2,
    pub velocity: Vec2,
    /// Contact damage, for melee enemies.
    pub contact: Option<DamagesPlayer>,
    /// Interval between shots, for archers.
    pub shoot_timer: Option<Timer>,
}

pub open spec fn in_world(p: Vec2) -> bool {
    -WORLD_LIMIT <= p.x <= WORLD_LIMIT && -WORLD_LIMIT <= p.y <= WORLD_LIMIT
}

pub open spec fn velocity_ok(v: Vec2) -> bool {
    -VELOCITY_LIMIT <= v.x <= VELOCITY_LIMIT && -VELOCITY_LIMIT <= v.y <= VELOCITY_LIMIT
}

pub open spec fn speed_ok(speed: i64) -> bool {
    0 < speed <= SPEED_LIMIT
}

impl EnemyUnit {
    pub open spec fn wf(self) -> bool {
        &&& in_world(self.position)
        &&& velocity_ok(self.velocity)
        &&& match self.enemy.ai {
            EnemyAI::ChasesPlayer { speed } => speed_ok(speed) && len_sq(self.velocity) <= speed
                * speed,
            EnemyAI::Afraid { speed } => speed_ok(speed),
            EnemyAI::Archer { .. } => true,
        }
        &&& match self.contact {
            Some(c) => c.tick.wf(),
            None => true,
        }
        &&& match self.shoot_timer {
            Some(t) => t.wf(),
            None => true,
        }
    }
}

/// What a chaser wants its velocity to be: toward the player at full speed,
/// or still once within arrival range.
pub open spec fn desired_chase(pos: Vec2, player: Vec2, speed: i64) -> Vec2 {
    let d = sub_spec(player, pos);
    if vlen(d) < ARRIVAL_RADIUS {
        zero()
    } else {
        scale_spec(d, speed as int)
    }
}

/// How far ahead (in thousandths) a chaser looks: its speed fraction.
pub open spec fn ahead_len(v: Vec2, speed: i64) -> int {
    vlen(v) * 1000 / (speed as int)
}

/// The `i`-th of three points along the look-ahead ray.
pub open spec fn sample(pos: Vec2, v: Vec2, ahead: int, i: int) -> Vec2 {
    add_spec(pos, scale_spec(v, ahead * i / 2))
}

pub open spec fn sample_hits(pos: Vec2, v: Vec2, ahead: int, i: int, c: Vec2) -> bool {
    vlen(sub_spec(sample(pos, v, ahead, i), c)) <= OBSTACLE_RADIUS
}

/// Whether the look-ahead ray of a moving enemy passes through the circle
/// around `c`.
pub open spec fn ray_blocked(pos: Vec2, v: Vec2, ahead: int, c: Vec2) -> bool {
    !(v.x == 0 && v.y == 0) && (sample_hits(pos, v, ahead, 0, c) || sample_hits(pos, v, ahead, 1, c)
        || sample_hits(pos, v, ahead, 2, c))
}

pub open spec fn is_obstacle(me: u64, pos: Vec2, v: Vec2, ahead: int, other: (u64, Vec2)) -> bool {
    &&& other.0 != me
    &&& vlen(sub_spec(pos, other.1)) <= NEIGHBOUR_RADIUS
    &&& ray_blocked(pos, v, ahead, other.1)
}

/// The nearest obstacle among the first `n` others; the earliest wins a tie.
pub open spec fn nearest_obstacle(
    me: u64,
    pos: Vec2,
    v: Vec2,
    ahead: int,
    others: Seq<(u64, Vec2)>,
    n: int,
) -> Option<Vec2>
    decreases n,
{
    if n <= 0 {
        None
    } else {
        let acc = nearest_obstacle(me, pos, v, ahead, others, n - 1);
        let o = others[n - 1];
        if is_obstacle(me, pos, v, ahead, o) && (acc is None || vlen(sub_spec(pos, o.1)) < vlen(
            sub_spec(pos, acc->Some_0),
        )) {
            Some(o.1)
        } else {
            acc
        }
    }
}

pub open spec fn avoidance(pos: Vec2, v: Vec2, ahead: int, speed: i64, obstacle: Option<Vec2>) -> Vec2 {
    match obstacle {
        Some(o) => scale_spec(sub_spec(add_spec(pos, scale_spec(v, ahead)), o), speed as int),
        None => zero(),
    }
}

/// A chaser's next velocity.
pub open spec fn chase_velocity(
    me: u64,
    pos: Vec2,
    v: Vec2,
    speed: i64,
    player: Vec2,
    others: Seq<(u64, Vec2)>,
) -> Vec2 {
    let seek = sub_spec(desired_chase(pos, player, speed), v);
    let ahead = ahead_len(v, speed);
    let avoid = avoidance(pos, v, ahead, speed, nearest_obstacle(me, pos, v, ahead, others, others.len() as int));
    let steering = clamp_spec(add_spec(seek, avoid), MAX_STEERING as int);
    clamp_spec(add_spec(v, steering), speed as int)
}

/// An archer's next velocity: once at or past its line it brakes, and parks
/// when it would no longer move up.
pub open spec fn archer_velocity(pos: Vec2, v: Vec2, target_y: i64) -> Vec2 {
    if !(v.x == 0 && v.y == 0) && pos.y >= target_y {
        let slowed = sub_spec(v, scale_spec(v, ARCHER_BRAKE as int));
        if slowed.y <= 0 {
            zero()
        } else {
            slowed
        }
    } else {
        v
    }
}

/// Straight down toward the bottom edge, at three times the speed.
pub open spec fn retreat_desire(speed: i64) -> Vec2 {
    Vec2 { x: 0, y: (-3 * speed) as i64 }
}

/// An afraid enemy's next velocity: the pull toward the bottom edge and the push
/// away from the player, both as steering, capped at its speed.
pub open spec fn afraid_velocity(pos: Vec2, v: Vec2, speed: i64, player: Vec2) -> Vec2 {
    let seek = sub_spec(retreat_desire(speed), v);
    let flee = sub_spec(scale_spec(sub_spec(pos, player), speed as int), v);
    clamp_spec(add_spec(add_spec(v, seek), flee), speed as int)
}

pub open spec fn steered(u: EnemyUnit, player: Vec2, others: Seq<(u64, Vec2)>) -> Vec2 {
    match u.enemy.ai {
        EnemyAI::ChasesPlayer { speed } => chase_velocity(
            u.entity,
            u.position,
            u.velocity,
            speed,
            player,
            others,
        ),
        EnemyAI::Archer { target_y } => archer_velocity(u.position, u.velocity, target_y),
        EnemyAI::Afraid { speed } => afraid_velocity(u.position, u.velocity, speed, player),
    }
}

pub open spec fn positions_ok(others: Seq<(u64, Vec2)>) -> bool {
    forall|j: int| 0 <= j < others.len() ==> in_world(#[trigger] others[j].1)
}

pub fn desired_chase_velocity(pos: &Vec2, player: &Vec2, speed: i64) -> (r: Vec2)
    requires
        in_world(*pos),
        in_world(*player),
        speed_ok(speed),
    ensures
        r == desired_chase(*pos, *player, speed),
        len_sq(r) <= speed * speed,
{
    let d = player.sub(pos);
    if d.length() < ARRIVAL_RADIUS as u64 {
        proof {
            lemma_zero_len();
            assert(speed * speed >= 0) by (nonlinear_arith);
        }
        Vec2 { x: 0, y: 0 }
    } else {
        d.scale_to(speed)
    }
}

fn sample_hits_exec(pos: &Vec2, v: &Vec2, ahead: i64, i: i64, c: &Vec2) -> (r: bool)
    requires
        in_world(*pos),
        in_world(*c),
        in_limits(*v),
        0 <= ahead <= 2000,
        0 <= i <= 2,
    ensures
        r == sample_hits(*pos, *v, ahead as int, i as int, *c),
{
    proof {
        assert(0 <= ahead * i <= 4000) by (nonlinear_arith)
            requires 0 <= ahead <= 2000, 0 <= i <= 2;
    }
    let step = v.scale_to(ahead * i / 2);
    proof {
        lemma_short_is_bounded(step, (ahead * i / 2) as int);
    }
    let point = pos.add(&step);
    let miss = point.sub(c);
    miss.length() <= OBSTACLE_RADIUS as u64
}

/// Whether the look-ahead ray of an enemy at `pos` moving at `v` passes
/// within the obstacle radius of `c`, tried at three points along it.
pub fn line_overlaps_circle(pos: &Vec2, v: &Vec2, ahead: i64, c: &Vec2) -> (r: bool)
    requires
        in_world(*pos),
        in_world(*c),
        in_limits(*v),
        0 <= ahead <= 2000,
    ensures
        r == ray_blocked(*pos, *v, ahead as int, *c),
{
    !v.is_zero() && (sample_hits_exec(pos, v, ahead, 0, c) || sample_hits_exec(pos, v, ahead, 1, c)
        || sample_hits_exec(pos, v, ahead, 2, c))
}

/// Velocity of a chaser after one update.
pub fn chase_step(
    me: u64,
    pos: &Vec2,
    v: &Vec2,
    speed: i64,
    player: &Vec2,
    others: &Vec<(u64, Vec2)>,
) -> (r: Vec2)
    requires
        in_world(*pos),
        in_world(*player),
        velocity_ok(*v),
        speed_ok(speed),
        len_sq(*v) <= speed * speed,
        positions_ok(others@),
    ensures
        r == chase_velocity(me, *pos, *v, speed, *player, others@),
        len_sq(r) <= speed * speed,
        velocity_ok(r),
{
    let desired = desired_chase_velocity(pos, player, speed);
    proof {
        lemma_short_is_bounded(desired, speed as int);
    }
    let seek = desired.sub(v);
    let vl = v.length();
    proof {
        assert(vl <= speed) by (nonlinear_arith)
            requires
                vl * vl >= len_sq(*v),
                len_sq(*v) <= speed * speed,
                vl >= 0,
                speed > 0,
                vl == 0 || (vl - 1) * (vl - 1) < len_sq(*v);
        assert(vl * 1000 <= speed * 1000) by (nonlinear_arith)
            requires vl <= speed;
        assert((vl * 1000) / (speed as int) <= 1000) by (nonlinear_arith)
            requires vl * 1000 <= speed * 1000, speed > 0, vl >= 0;
        assert((vl * 1000) / (speed as int) >= 0) by (nonlinear_arith)
            requires vl >= 0, speed > 0;
    }
    let ahead = (vl as i64 * 1000) / speed;
    let mut nearest: Option<Vec2> = None;
    let mut j: usize = 0;
    while j < others.len()
        invariant
            0 <= j <= others.len(),
            in_world(*pos),
            in_limits(*v),
            0 <= ahead <= 1000,
            ahead == ahead_len(*v, speed),
            positions_ok(others@),
            nearest == nearest_obstacle(me, *pos, *v, ahead as int, others@, j as int),
            nearest matches Some(o) ==> in_world(o),
        decreases others.len() - j,
    {
        let (id, at) = others[j];
        proof {
            assert(in_world(others@[j as int].1));
        }
        if id != me {
            let d = pos.sub(&at).length();
            if d <= NEIGHBOUR_RADIUS as u64 && line_overlaps_circle(pos, v, ahead, &at) {
                let closer = match nearest {
                    None => true,
                    Some(acc) => d < pos.sub(&acc).length(),
                };
                if closer {
                    nearest = Some(at);
                }
            }
        }
        j = j + 1;
    }
    let avoid = match nearest {
        Some(o) => {
            let look = v.scale_to(ahead);
            proof {
                lemma_short_is_bounded(look, ahead as int);
            }
            let ahead_point = pos.add(&look);
            ahead_point.sub(&o).scale_to(speed)
        },
        None => Vec2 { x: 0, y: 0 },
    };
    proof {
        lemma_zero_len();
        assert(speed * speed >= 0) by (nonlinear_arith);
        lemma_short_is_bounded(avoid, speed as int);
    }
    let steering = seek.add(&avoid).clamp_length_max(MAX_STEERING);
    proof {
        lemma_short_is_bounded(steering, MAX_STEERING as int);
    }
    let r = v.add(&steering).clamp_length_max(speed);
    proof {
        lemma_short_is_bounded(r, speed as int);
    }
    r
}

pub proof fn lemma_zero_len()
    ensures
        len_sq(zero()) == 0,
{
    let z = zero();
    assert(z.x == 0 && z.y == 0);
    assert(z.x * z.x + z.y * z.y == 0) by (nonlinear_arith)
        requires z.x == 0 && z.y == 0;
}

/// A vector no longer than `m` has components within `m`.
pub proof fn lemma_short_is_bounded(v: Vec2, m: int)
    requires
        len_sq(v) <= m * m,
        0 <= m <= SPEED_LIMIT,
    ensures
        -m <= v.x <= m,
        -m <= v.y <= m,
        velocity_ok(v),
{
    assert(v.x * v.x <= m * m) by (nonlinear_arith)
        requires v.x * v.x + v.y * v.y <= m * m;
    assert(v.y * v.y <= m * m) by (nonlinear_arith)
        requires v.x * v.x + v.y * v.y <= m * m;
    if v.x > m {
        assert(v.x * v.x > m * m) by (nonlinear_arith)
            requires v.x > m, m >= 0;
    }
    if v.x < -m {
        assert(v.x * v.x > m * m) by (nonlinear_arith)
            requires v.x < -m, m >= 0;
    }
    if v.y > m {
        assert(v.y * v.y > m * m) by (nonlinear_arith)
            requires v.y > m, m >= 0;
    }
    if v.y < -m {
        assert(v.y * v.y > m * m) by (nonlinear_arith)
            requires v.y < -m, m >= 0;
    }
}

proof fn lemma_brake_bounded(v: Vec2, b: Vec2)
    requires
        velocity_ok(v),
        -ARCHER_BRAKE <= b.x <= ARCHER_BRAKE,
        -ARCHER_BRAKE <= b.y <= ARCHER_BRAKE,
        v.x >= 0 ==> b.x >= 0,
        v.x <= 0 ==> b.x <= 0,
        v.y >= 0 ==> b.y >= 0,
        v.y <= 0 ==> b.y <= 0,
    ensures
        velocity_ok(sub_spec(v, b)),
        sub_spec(v, b).x == v.x - b.x,
        sub_spec(v, b).y == v.y - b.y,
{
}

/// Velocity of an archer after one update.
pub fn archer_step(pos: &Vec2, v: &Vec2, target_y: i64) -> (r: Vec2)
    requires
        velocity_ok(*v),
    ensures
        r == archer_velocity(*pos, *v, target_y),
        velocity_ok(r),
{
    if !v.is_zero() && pos.y >= target_y {
        let brake = v.scale_to(ARCHER_BRAKE);
        proof {
            lemma_short_is_bounded(brake, ARCHER_BRAKE as int);
        }
        proof {
            lemma_brake_bounded(*v, brake);
        }
        let slowed = v.sub(&brake);
        if slowed.y <= 0 {
            Vec2 { x: 0, y: 0 }
        } else {
            slowed
        }
    } else {
        *v
    }
}

/// Velocity of an afraid enemy after one update.
pub fn afraid_step(pos: &Vec2, v: &Vec2, speed: i64, player: &Vec2) -> (r: Vec2)
    requires
        in_world(*pos),
        in_world(*player),
        velocity_ok(*v),
        speed_ok(speed),
    ensures
        r == afraid_velocity(*pos, *v, speed, *player),
        len_sq(r) <= speed * speed,
        velocity_ok(r),
{
    proof {
        assert(0 < speed <= SPEED_LIMIT);
    }
    let triple = speed * 3;
    let retreat = Vec2 { x: 0, y: -triple };
    let seek = retreat.sub(v);
    let away = pos.sub(player).scale_to(speed);
    proof {
        lemma_short_is_bounded(away, speed as int);
    }
    let flee = away.sub(v);
    let r = v.add(&seek).add(&flee).clamp_length_max(speed);
    proof {
        lemma_short_is_bounded(r, speed as int);
    }
    r
}

} // verus!

verus! {

pub open spec fn all_wf(s: Seq<EnemyUnit>) -> bool {
    forall|i: int| 0 <= i < s.len() ==> (#[trigger] s[i]).wf()
}

/// Where every enemy stands, as the neighbour test reads it.
pub open spec fn snapshot(s: Seq<EnemyUnit>) -> Seq<(u64, Vec2)> {
    s.map_values(|u: EnemyUnit| (u.entity, u.position))
}

pub open spec fn with_velocity(u: EnemyUnit, v: Vec2) -> EnemyUnit {
    EnemyUnit { velocity: v, ..u }
}

/// The velocity an enemy takes in one update.
pub fn steer(u: &EnemyUnit, player: &Vec2, others: &Vec<(u64, Vec2)>) -> (r: Vec2)
    requires
        u.wf(),
        in_world(*player),
        positions_ok(others@),
    ensures
        r == steered(*u, *player, others@),
        with_velocity(*u, r).wf(),
{
    match u.enemy.ai {
        EnemyAI::ChasesPlayer { speed } => chase_step(
            u.entity,
            &u.position,
            &u.velocity,
            speed,
            player,
            others,
        ),
        EnemyAI::Archer { target_y } => archer_step(&u.position, &u.velocity, target_y),
        EnemyAI::Afraid { speed } => afraid_step(&u.position, &u.velocity, speed, player),
    }
}

/// Updates every enemy's velocity for one frame. Without a player nothing
/// changes.
pub fn update_enemy(units: &mut Vec<EnemyUnit>, player: Option<Vec2>)
    requires
        all_wf(old(units)@),
        player matches Some(p) ==> in_world(p),
    ensures
        final(units)@.len() == old(units)@.len(),
        all_wf(final(units)@),
        player is None ==> final(units)@ == old(units)@,
        player matches Some(p) ==> forall|i: int|
            0 <= i < old(units)@.len() ==> #[trigger] final(units)@[i] == with_velocity(
                old(units)@[i],
                steered(old(units)@[i], p, snapshot(old(units)@)),
            ),
{
    let p = match player {
        Some(p) => p,
        None => return ,
    };
    let ghost before = units@;
    let mut others: Vec<(u64, Vec2)> = Vec::new();
    let mut k: usize = 0;
    while k < units.len()
        invariant
            0 <= k <= units@.len(),
            units@ == before,
            all_wf(before),
            others@ == snapshot(before).take(k as int),
        decreases units@.len() - k,
    {
        others.push((units[k].entity, units[k].position));
        proof {
            assert(others@ =~= snapshot(before).take(k + 1));
        }
        k = k + 1;
    }
    proof {
        assert(others@ =~= snapshot(before));
        assert forall|j: int| 0 <= j < others@.len() implies in_world(#[trigger] others@[j].1) by {
            assert(before[j].wf());
        }
    }
    let mut i: usize = 0;
    while i < units.len()
        invariant
            0 <= i <= units@.len(),
            units@.len() == before.len(),
            all_wf(before),
            in_world(p),
            others@ == snapshot(before),
            positions_ok(others@),
            forall|j: int| i <= j < before.len() ==> #[trigger] units@[j] == before[j],
            forall|j: int|
                0 <= j < i ==> #[trigger] units@[j] == with_velocity(
                    before[j],
                    steered(before[j], p, snapshot(before)),
                ),
            all_wf(units@),
        decreases units@.len() - i,
    {
        let u = units[i];
        proof {
            assert(before[i as int].wf());
        }
        let v = steer(&u, &p, &others);
        units.set(i, EnemyUnit { velocity: v, ..u });
        i = i + 1;
    }
}

/// Whether archers can be frightened, and how fast a frightened archer runs.
#[derive(Clone, Copy, Debug, PartialEq, Eq, Structural)]
pub struct FearPolicy {
    /// `None`: archers hold their ground whatever happens to them.
    pub archer_flee_speed: Option<i64>,
}

impl FearPolicy {
    pub open spec fn wf(self) -> bool {
        self.archer_flee_speed matches Some(s) ==> speed_ok(s)
    }
}

/// Health after taking `damage`; it bottoms out at minus the amount limit.
pub open spec fn damaged_health(h: Health, damage: i64) -> Health {
    if h.current - damage < -AMOUNT_LIMIT {
        Health { current: (-AMOUNT_LIMIT) as i64, ..h }
    } else {
        Health { current: (h.current - damage) as i64, ..h }
    }
}

/// The behaviour after a hit: a chaser (and, by policy, an archer) turns
/// afraid when the attack induces fear or its health falls to the fear
/// threshold; an afraid enemy stays afraid.
pub open spec fn ai_after_hit(e: Enemy, after: Health, d: DamagesEnemy, policy: FearPolicy) -> EnemyAI {
    let scared = d.induces_fear || after.current <= e.fear_threshold;
    match e.ai {
        EnemyAI::Afraid { .. } => e.ai,
        EnemyAI::ChasesPlayer { speed } => if scared {
            EnemyAI::Afraid { speed }
        } else {
            e.ai
        },
        EnemyAI::Archer { .. } => match policy.archer_flee_speed {
            Some(s) => if scared {
                EnemyAI::Afraid { speed: s }
            } else {
                e.ai
            },
            None => e.ai,
        },
    }
}

pub open spec fn hit_unit(u: EnemyUnit, d: DamagesEnemy, policy: FearPolicy) -> EnemyUnit {
    let h = damaged_health(u.health, d.damage);
    EnemyUnit {
        health: h,
        enemy: Enemy { ai: ai_after_hit(u.enemy, h, d, policy), ..u.enemy },
        ..u
    }
}

pub open spec fn is_afraid(ai: EnemyAI) -> bool {
    ai is Afraid
}

pub open spec fn health_ok(h: Health) -> bool {
    -AMOUNT_LIMIT <= h.current <= AMOUNT_LIMIT
}

pub open spec fn damage_ok(d: DamagesEnemy) -> bool {
    0 <= d.damage <= AMOUNT_LIMIT
}

/// Applies one attack to one enemy.
pub fn apply_enemy_hit(u: &mut EnemyUnit, d: &DamagesEnemy, policy: &FearPolicy)
    requires
        old(u).wf(),
        health_ok(old(u).health),
        damage_ok(*d),
        policy.wf(),
    ensures
        *final(u) == hit_unit(*old(u), *d, *policy),
        final(u).wf(),
        health_ok(final(u).health),
{
    let after = if u.health.current - d.damage < -AMOUNT_LIMIT {
        -AMOUNT_LIMIT
    } else {
        u.health.current - d.damage
    };
    u.health.current = after;
    let scared = d.induces_fear || after <= u.enemy.fear_threshold;
    match u.enemy.ai {
        EnemyAI::Afraid { .. } => {},
        EnemyAI::ChasesPlayer { speed } => {
            if scared {
                u.enemy.ai = EnemyAI::Afraid { speed };
            }
        },
        EnemyAI::Archer { .. } => {
            if let Some(s) = policy.archer_flee_speed {
                if scared {
                    u.enemy.ai = EnemyAI::Afraid { speed: s };
                }
            }
        },
    }
}

/// Fear only goes one way: a hit never turns an afraid enemy back, and an
/// afraid enemy keeps its speed.
pub proof fn lemma_fear_is_one_way(u: EnemyUnit, d: DamagesEnemy, policy: FearPolicy)
    requires
        is_afraid(u.enemy.ai),
    ensures
        hit_unit(u, d, policy).enemy.ai == u.enemy.ai,
{
}

/// An update moves no enemy out of fear: steering changes velocities alone.
pub proof fn lemma_steering_keeps_behaviour(u: EnemyUnit, player: Vec2, others: Seq<(u64, Vec2)>)
    ensures
        with_velocity(u, steered(u, player, others)).enemy == u.enemy,
{
}

/// Within arrival range a chaser wants no velocity at all.
pub proof fn lemma_arrival_halts(pos: Vec2, player: Vec2, speed: i64)
    requires
        vlen(sub_spec(player, pos)) < ARRIVAL_RADIUS,
    ensures
        desired_chase(pos, player, speed) == zero(),
{
}

/// Whether an enemy's sprite is flipped: flipped when it stands right of the
/// player, so that it faces the player; the reverse for an afraid enemy,
/// which faces away as it retreats.
pub open spec fn flip_of(ai: EnemyAI, x: i64, player_x: i64) -> bool {
    match ai {
        EnemyAI::Afraid { .. } => !(x > player_x),
        _ => x > player_x,
    }
}

pub fn enemy_flip_x(ai: &EnemyAI, x: i64, player_x: i64) -> (r: bool)
    ensures
        r == flip_of(*ai, x, player_x),
{
    match ai {
        EnemyAI::Afraid { .. } => !(x > player_x),
        _ => x > player_x,
    }
}

/// A sprite tint: red, green and blue in thousandths.
#[derive(Clone, Copy, Debug, PartialEq, Eq, Structural)]
pub struct Tint {
    pub red: i64,
    pub green: i64,
    pub blue: i64,
}

/// The tint an enemy shows: an afraid enemy shows the fear colour whatever
/// its health; any other, below its fear threshold, fades toward red with
/// its health; the rest keep their tint (`None`).
pub open spec fn tint_of(e: Enemy, h: Health) -> Option<Tint> {
    if e.ai is Afraid {
        Some(Tint { red: 1000, green: 500, blue: 1000 })
    } else if h.current < e.fear_threshold {
        let left = if h.current < 0 { 0 } else { h.current as int };
        let fade = (250 + left * 1000 / (h.maximum as int) / 2) as i64;
        Some(Tint { red: 1000, green: fade, blue: fade })
    } else {
        None
    }
}

pub fn enemy_tint(e: &Enemy, h: &Health) -> (r: Option<Tint>)
    requires
        0 < h.maximum <= AMOUNT_LIMIT,
        h.current <= AMOUNT_LIMIT,
    ensures
        r == tint_of(*e, *h),
        e.ai is Afraid ==> r == Some(Tint { red: 1000, green: 500, blue: 1000 }),
{
    if let EnemyAI::Afraid { .. } = e.ai {
        Some(Tint { red: 1000, green: 500, blue: 1000 })
    } else if h.current < e.fear_threshold {
        let left: i64 = if h.current < 0 {
            0
        } else {
            h.current
        };
        proof {
            assert(0 <= left * 1000 <= AMOUNT_LIMIT * 1000) by (nonlinear_arith)
                requires 0 <= left <= AMOUNT_LIMIT;
            assert(0 <= (left * 1000) / (h.maximum as int) <= left * 1000) by (nonlinear_arith)
                requires 0 <= left * 1000, h.maximum > 0;
        }
        let fade = 250 + left * 1000 / h.maximum / 2;
        Some(Tint { red: 1000, green: fade, blue: fade })
    } else {
        None
    }
}

/// A chaser that already moves at the velocity it wants, with nothing in
/// its way, keeps that velocity: pursuit settles at a fixed point. The
/// velocity it wants points at the player, at no more than its speed, as
/// long as it is out of arrival range.
pub proof fn lemma_chase_settles(me: u64, pos: Vec2, v: Vec2, speed: i64, player: Vec2, others: Seq<(u64, Vec2)>)
    requires
        clear_ahead(me, pos, v, speed, others),
        in_world(pos),
        in_world(player),
        speed_ok(speed),
        v == desired_chase(pos, player, speed),
    ensures
        chase_velocity(me, pos, v, speed, player, others) == v,
        vlen(sub_spec(player, pos)) >= ARRIVAL_RADIUS ==> v == scale_spec(
            sub_spec(player, pos),
            speed as int,
        ),
{
    lemma_desired_short(pos, player, speed);
    let seek = sub_spec(desired_chase(pos, player, speed), v);
    lemma_short_is_bounded(v, speed as int);
    assert(seek == zero());
    let steer_in = add_spec(seek, zero());
    assert(steer_in == zero());
    lemma_zero_len();
    assert(MAX_STEERING * MAX_STEERING >= 0) by (nonlinear_arith);
    assert(clamp_spec(steer_in, MAX_STEERING as int) == zero());
    assert(add_spec(v, zero()) == v);
}

/// No neighbour blocks the chaser's look-ahead ray.
pub open spec fn clear_ahead(me: u64, pos: Vec2, v: Vec2, speed: i64, others: Seq<(u64, Vec2)>) -> bool {
    nearest_obstacle(me, pos, v, ahead_len(v, speed), others, others.len() as int) is None
}

/// With no neighbour at all, nothing is in the way.
pub proof fn lemma_alone_is_clear(me: u64, pos: Vec2, v: Vec2, speed: i64)
    ensures
        clear_ahead(me, pos, v, speed, Seq::empty()),
{
}

pub open spec fn abs_int(x: int) -> int {
    if x >= 0 {
        x
    } else {
        -x
    }
}

proof fn lemma_brake_component(x: int, l: int)
    requires
        l > MAX_STEERING,
        -l <= x <= l,
    ensures
        (abs_int(x) - abs_int(x + div_trunc(-x * MAX_STEERING, l))) * l > abs_int(x) * MAX_STEERING - l,
        x >= 0 ==> 0 <= x + div_trunc(-x * MAX_STEERING, l) <= x,
        x <= 0 ==> x <= x + div_trunc(-x * MAX_STEERING, l) <= 0,
        (x + div_trunc(-x * MAX_STEERING, l)) * (x + div_trunc(-x * MAX_STEERING, l)) <= x * x,
{
    let m = MAX_STEERING as int;
    let a = abs_int(x);
    assert(0 <= a * m) by (nonlinear_arith)
        requires 0 <= a, 0 < m;
    assert(((a * m) / l) * l > a * m - l) by (nonlinear_arith)
        requires 0 <= a * m, l > 0;
    if x >= 0 {
        assert(0 <= x * m <= x * l) by (nonlinear_arith)
            requires 0 <= x, 0 < m < l;
        assert(0 <= (x * m) / l <= x) by (nonlinear_arith)
            requires 0 <= x * m <= x * l, l > 0;
        if x > 0 {
            assert(-x * m < 0) by (nonlinear_arith)
                requires x > 0, m > 0;
            assert(-(-x * m) == x * m);
            assert(div_trunc(-x * m, l) == -((x * m) / l));
        } else {
            assert(div_trunc(-x * m, l) == 0);
        }
    } else {
        assert(a == -x);
        assert(0 <= a * m <= a * l) by (nonlinear_arith)
            requires 0 <= a, 0 < m < l;
        assert(0 <= (a * m) / l <= a) by (nonlinear_arith)
            requires 0 <= a * m <= a * l, l > 0;
        assert(-x * m == a * m);
        assert(div_trunc(-x * m, l) == (a * m) / l);
    }
    let r = x + div_trunc(-x * m, l);
    assert(r * r <= x * x) by (nonlinear_arith)
        requires (x >= 0 ==> 0 <= r <= x), (x <= 0 ==> x <= r <= 0);
}

/// Within arrival range, with nothing in its way, a chaser brakes: moving
/// no faster than one steering step it stops dead; otherwise each component
/// of its velocity shrinks toward zero and never changes sign, so it does
/// not overshoot.
pub proof fn lemma_arrival_brakes(
    me: u64,
    pos: Vec2,
    v: Vec2,
    speed: i64,
    player: Vec2,
    others: Seq<(u64, Vec2)>,
)
    requires
        in_world(pos),
        in_world(player),
        speed_ok(speed),
        velocity_ok(v),
        len_sq(v) <= speed * speed,
        vlen(sub_spec(player, pos)) < ARRIVAL_RADIUS,
        clear_ahead(me, pos, v, speed, others),
    ensures
        len_sq(v) <= MAX_STEERING * MAX_STEERING ==> chase_velocity(me, pos, v, speed, player, others)
            == zero(),
        v.x >= 0 ==> 0 <= chase_velocity(me, pos, v, speed, player, others).x <= v.x,
        v.x <= 0 ==> v.x <= chase_velocity(me, pos, v, speed, player, others).x <= 0,
        v.y >= 0 ==> 0 <= chase_velocity(me, pos, v, speed, player, others).y <= v.y,
        v.y <= 0 ==> v.y <= chase_velocity(me, pos, v, speed, player, others).y <= 0,
        len_sq(v) > MAX_STEERING * MAX_STEERING ==> abs_int(chase_velocity(me, pos, v, speed, player, others).x as int)
            + abs_int(chase_velocity(me, pos, v, speed, player, others).y as int) + (MAX_STEERING - 1) <= abs_int(v.x as int)
            + abs_int(v.y as int),
        len_sq(v) > MAX_STEERING * MAX_STEERING ==> vlen(v) > MAX_STEERING && len_sq(
            chase_velocity(me, pos, v, speed, player, others),
        ) < (vlen(v) - (MAX_STEERING - 2)) * (vlen(v) - (MAX_STEERING - 2)),
{
    let seek = sub_spec(zero(), v);
    lemma_short_is_bounded(v, speed as int);
    assert(seek.x == -v.x && seek.y == -v.y);
    assert(len_sq(seek) == len_sq(v)) by (nonlinear_arith)
        requires seek.x == -v.x, seek.y == -v.y;
    let steer_in = add_spec(seek, zero());
    assert(steer_in == seek);
    lemma_zero_len();
    if len_sq(v) <= MAX_STEERING * MAX_STEERING {
        assert(clamp_spec(steer_in, MAX_STEERING as int) == seek);
        assert(add_spec(v, seek) == zero());
        assert(speed * speed >= 0) by (nonlinear_arith);
        assert(clamp_spec(zero(), speed as int) == zero());
    } else {
        lemma_vlen(seek);
        let l = vlen(seek);
        assert(l > MAX_STEERING) by (nonlinear_arith)
            requires l * l >= len_sq(seek), len_sq(seek) > MAX_STEERING * MAX_STEERING, l >= 0;
        crate::vector::lemma_scale_bound(seek, MAX_STEERING as int);
        let st = scale_spec(seek, MAX_STEERING as int);
        assert(l * l >= seek.x * seek.x + seek.y * seek.y);
        assert(-l <= v.x <= l && -l <= v.y <= l) by (nonlinear_arith)
            requires l * l >= v.x * v.x + v.y * v.y, l >= 0;
        lemma_brake_component(v.x as int, l);
        lemma_brake_component(v.y as int, l);
        assert(-(v.x as int) * MAX_STEERING == seek.x * MAX_STEERING);
        assert(-(v.y as int) * MAX_STEERING == seek.y * MAX_STEERING);
        assert(st.x == div_trunc(seek.x * MAX_STEERING, l));
        assert(st.y == div_trunc(seek.y * MAX_STEERING, l));
        let sum = add_spec(v, st);
        assert(len_sq(sum) <= len_sq(v)) by (nonlinear_arith)
            requires sum.x * sum.x <= v.x * v.x, sum.y * sum.y <= v.y * v.y;
        let ax = abs_int(v.x as int);
        let ay = abs_int(v.y as int);
        assert(ax * ax == v.x * v.x) by (nonlinear_arith)
            requires ax == v.x || ax == -v.x;
        assert(ay * ay == v.y * v.y) by (nonlinear_arith)
            requires ay == v.y || ay == -v.y;
        let px = ax - abs_int(sum.x as int);
        let py = ay - abs_int(sum.y as int);
        assert((l - 1) * (l - 1) < len_sq(v));
        assert(ax + ay >= l) by (nonlinear_arith)
            requires
                (l - 1) * (l - 1) < v.x * v.x + v.y * v.y,
                ax * ax == v.x * v.x,
                ay * ay == v.y * v.y,
                ax >= 0,
                ay >= 0,
                l >= 1;
        assert((px + py) * l > (ax + ay) * MAX_STEERING - 2 * l) by (nonlinear_arith)
            requires px * l > ax * MAX_STEERING - l, py * l > ay * MAX_STEERING - l;
        assert(px + py >= MAX_STEERING - 1) by (nonlinear_arith)
            requires (px + py) * l > (ax + ay) * MAX_STEERING - 2 * l, ax + ay >= l, l > 0;
        // The speed falls by nearly a full steering step.
        let m = MAX_STEERING as int;
        let bx = abs_int(sum.x as int);
        let by = abs_int(sum.y as int);
        assert(bx * l < ax * (l - m) + l) by (nonlinear_arith)
            requires bx == ax - px, px * l > ax * m - l;
        assert(by * l < ay * (l - m) + l) by (nonlinear_arith)
            requires by == ay - py, py * l > ay * m - l;
        assert(bx >= 0 && by >= 0);
        assert(ax * ax + ay * ay <= l * l);
        assert(ax <= l && ay <= l);
        assert((bx * l) * (bx * l) < (ax * (l - m) + l) * (ax * (l - m) + l)) by (nonlinear_arith)
            requires 0 <= bx * l < ax * (l - m) + l, bx >= 0, l > 0;
        assert((by * l) * (by * l) < (ay * (l - m) + l) * (ay * (l - m) + l)) by (nonlinear_arith)
            requires 0 <= by * l < ay * (l - m) + l, by >= 0, l > 0;
        let c = l - m;
        assert((ax * c + l) * (ax * c + l) == ax * ax * (c * c) + 2 * (ax * c * l) + l * l) by (nonlinear_arith);
        assert((ay * c + l) * (ay * c + l) == ay * ay * (c * c) + 2 * (ay * c * l) + l * l) by (nonlinear_arith);
        assert(ax * ax * (c * c) + ay * ay * (c * c) <= l * l * (c * c)) by (nonlinear_arith)
            requires ax * ax + ay * ay <= l * l;
        assert(ax * c * l + ay * c * l <= 2 * (l * l * c)) by (nonlinear_arith)
            requires 0 <= ax <= l, 0 <= ay <= l, c > 0, l > 0;
        assert((l * (c + 2)) * (l * (c + 2)) == l * l * (c * c) + 4 * (l * l * c) + 4 * (l * l)) by (nonlinear_arith);
        assert(l * l >= 0) by (nonlinear_arith);
        assert((ax * c + l) * (ax * c + l) + (ay * c + l) * (ay * c + l) <= (l * (c + 2)) * (l * (c + 2)));
        assert(l - m + 2 == c + 2);
        assert((bx * l) * (bx * l) + (by * l) * (by * l) == (bx * bx + by * by) * (l * l)) by (nonlinear_arith);
        assert((l * (l - m + 2)) * (l * (l - m + 2)) == (l - m + 2) * (l - m + 2) * (l * l)) by (nonlinear_arith);
        assert((bx * l) * (bx * l) + (by * l) * (by * l) < (l * (l - m + 2)) * (l * (l - m + 2)));
        assert((bx * bx + by * by) * (l * l) < (l - m + 2) * (l - m + 2) * (l * l)) by (nonlinear_arith)
            requires
                (bx * l) * (bx * l) + (by * l) * (by * l) < (l * (l - m + 2)) * (l * (l - m + 2)),
                (bx * l) * (bx * l) + (by * l) * (by * l) == (bx * bx + by * by) * (l * l),
                (l * (l - m + 2)) * (l * (l - m + 2)) == (l - m + 2) * (l - m + 2) * (l * l);
        assert(bx * bx + by * by < (l - m + 2) * (l - m + 2)) by (nonlinear_arith)
            requires (bx * bx + by * by) * (l * l) < (l - m + 2) * (l - m + 2) * (l * l), l > 0;
        assert(bx * bx == sum.x * sum.x) by (nonlinear_arith)
            requires bx == sum.x || bx == -sum.x;
        assert(by * by == sum.y * sum.y) by (nonlinear_arith)
            requires by == sum.y || by == -sum.y;
        assert(vlen(seek) == vlen(v));
    }
}

/// No other enemy stands within the neighbour radius.
pub open spec fn no_neighbours(me: u64, pos: Vec2, others: Seq<(u64, Vec2)>) -> bool {
    forall|j: int|
        0 <= j < others.len() ==> (#[trigger] others[j]).0 == me || vlen(sub_spec(pos, others[j].1))
            > NEIGHBOUR_RADIUS
}

/// With no neighbour near, nothing is ever in the way, whatever the velocity.
pub proof fn lemma_lonely_is_clear(me: u64, pos: Vec2, v: Vec2, speed: i64, others: Seq<(u64, Vec2)>, n: int)
    requires
        no_neighbours(me, pos, others),
        n <= others.len(),
    ensures
        nearest_obstacle(me, pos, v, ahead_len(v, speed), others, n) is None,
    decreases n,
{
    if n > 0 {
        lemma_lonely_is_clear(me, pos, v, speed, others, n - 1);
        assert(!is_obstacle(me, pos, v, ahead_len(v, speed), others[n - 1]));
    }
}

/// A chaser's velocity after `k` updates, everything else held still.
pub open spec fn chase_steps(
    me: u64,
    pos: Vec2,
    v: Vec2,
    speed: i64,
    player: Vec2,
    others: Seq<(u64, Vec2)>,
    k: nat,
) -> Vec2
    decreases k,
{
    if k == 0 {
        v
    } else {
        chase_velocity(me, pos, chase_steps(me, pos, v, speed, player, others, (k - 1) as nat), speed, player, others)
    }
}

/// Within arrival range, with no neighbour near, a chaser comes to a dead
/// stop within `(|v.x| + |v.y|) / (MAX_STEERING - 1) + 1` updates and stays
/// stopped: arrival halts without oscillation.
pub proof fn lemma_arrival_halts_in_time(
    me: u64,
    pos: Vec2,
    v: Vec2,
    speed: i64,
    player: Vec2,
    others: Seq<(u64, Vec2)>,
    k: nat,
)
    requires
        in_world(pos),
        in_world(player),
        speed_ok(speed),
        velocity_ok(v),
        len_sq(v) <= speed * speed,
        vlen(sub_spec(player, pos)) < ARRIVAL_RADIUS,
        no_neighbours(me, pos, others),
        k * (MAX_STEERING - 1) >= abs_int(v.x as int) + abs_int(v.y as int) + (MAX_STEERING - 1),
    ensures
        chase_steps(me, pos, v, speed, player, others, k) == zero(),
    decreases k,
{
    lemma_lonely_is_clear(me, pos, v, speed, others, others.len() as int);
    lemma_arrival_brakes(me, pos, v, speed, player, others);
    let next = chase_velocity(me, pos, v, speed, player, others);
    assert(k >= 1) by (nonlinear_arith)
        requires
            k * (MAX_STEERING - 1) >= abs_int(v.x as int) + abs_int(v.y as int) + (MAX_STEERING - 1),
            abs_int(v.x as int) >= 0,
            abs_int(v.y as int) >= 0;
    // Unroll from the front: k steps from v are k - 1 steps from next.
    lemma_steps_shift(me, pos, v, speed, player, others, (k - 1) as nat);
    if len_sq(v) <= MAX_STEERING * MAX_STEERING {
        assert(next == zero());
        lemma_stays_stopped(me, pos, speed, player, others, (k - 1) as nat);
        assert(((k - 1) as nat) + 1 == k);
    } else {
        assert(next.x * next.x <= v.x * v.x) by (nonlinear_arith)
            requires (v.x >= 0 ==> 0 <= next.x <= v.x), (v.x <= 0 ==> v.x <= next.x <= 0);
        assert(next.y * next.y <= v.y * v.y) by (nonlinear_arith)
            requires (v.y >= 0 ==> 0 <= next.y <= v.y), (v.y <= 0 ==> v.y <= next.y <= 0);
        assert(len_sq(next) <= len_sq(v)) by (nonlinear_arith)
            requires
                next.x * next.x <= v.x * v.x,
                next.y * next.y <= v.y * v.y;
        assert(velocity_ok(next));
        assert(((k - 1) as nat) * (MAX_STEERING - 1) >= abs_int(next.x as int) + abs_int(next.y as int) + (MAX_STEERING - 1))
            by (nonlinear_arith)
            requires
                k * (MAX_STEERING - 1) >= abs_int(v.x as int) + abs_int(v.y as int) + (MAX_STEERING - 1),
                abs_int(next.x as int) + abs_int(next.y as int) + (MAX_STEERING - 1) <= abs_int(v.x as int) + abs_int(v.y as int),
                k >= 1;
        lemma_arrival_halts_in_time(me, pos, next, speed, player, others, (k - 1) as nat);
        assert(((k - 1) as nat) + 1 == k);
    }
}

proof fn lemma_vlen_below(w: Vec2, r: int)
    requires
        len_sq(w) < r * r,
        r >= 0,
    ensures
        vlen(w) <= r,
{
    lemma_vlen(w);
    let l = vlen(w);
    if l > r {
        assert((l - 1) * (l - 1) >= r * r) by (nonlinear_arith)
            requires l - 1 >= r, r >= 0;
    }
}

/// Within arrival range, with no neighbour near, a chaser moving at speed
/// `|v|` (rounded up) comes to a dead stop within `|v| / (MAX_STEERING - 2)
/// + 1` updates and stays stopped: each update takes nearly a full steering
/// step off its speed.
pub proof fn lemma_arrival_halts_by_speed(
    me: u64,
    pos: Vec2,
    v: Vec2,
    speed: i64,
    player: Vec2,
    others: Seq<(u64, Vec2)>,
    k: nat,
)
    requires
        in_world(pos),
        in_world(player),
        speed_ok(speed),
        velocity_ok(v),
        len_sq(v) <= speed * speed,
        vlen(sub_spec(player, pos)) < ARRIVAL_RADIUS,
        no_neighbours(me, pos, others),
        k * (MAX_STEERING - 2) >= vlen(v) + (MAX_STEERING - 2),
    ensures
        chase_steps(me, pos, v, speed, player, others, k) == zero(),
    decreases k,
{
    lemma_vlen(v);
    lemma_lonely_is_clear(me, pos, v, speed, others, others.len() as int);
    lemma_arrival_brakes(me, pos, v, speed, player, others);
    let next = chase_velocity(me, pos, v, speed, player, others);
    assert(k >= 1) by (nonlinear_arith)
        requires k * (MAX_STEERING - 2) >= vlen(v) + (MAX_STEERING - 2), vlen(v) >= 0;
    lemma_steps_shift(me, pos, v, speed, player, others, (k - 1) as nat);
    if len_sq(v) <= MAX_STEERING * MAX_STEERING {
        assert(next == zero());
        lemma_stays_stopped(me, pos, speed, player, others, (k - 1) as nat);
        assert(((k - 1) as nat) + 1 == k);
    } else {
        assert(next.x * next.x <= v.x * v.x) by (nonlinear_arith)
            requires (v.x >= 0 ==> 0 <= next.x <= v.x), (v.x <= 0 ==> v.x <= next.x <= 0);
        assert(next.y * next.y <= v.y * v.y) by (nonlinear_arith)
            requires (v.y >= 0 ==> 0 <= next.y <= v.y), (v.y <= 0 ==> v.y <= next.y <= 0);
        assert(len_sq(next) <= len_sq(v)) by (nonlinear_arith)
            requires
                next.x * next.x <= v.x * v.x,
                next.y * next.y <= v.y * v.y;
        assert(velocity_ok(next));
        lemma_vlen_below(next, vlen(v) - (MAX_STEERING - 2));
        assert(((k - 1) as nat) * (MAX_STEERING - 2) >= vlen(next) + (MAX_STEERING - 2)) by (nonlinear_arith)
            requires
                k * (MAX_STEERING - 2) >= vlen(v) + (MAX_STEERING - 2),
                vlen(next) <= vlen(v) - (MAX_STEERING - 2),
                k >= 1;
        lemma_arrival_halts_by_speed(me, pos, next, speed, player, others, (k - 1) as nat);
        assert(((k - 1) as nat) + 1 == k);
    }
}

/// Taking one update first and then `k` is the same as taking `k + 1`.
proof fn lemma_steps_shift(
    me: u64,
    pos: Vec2,
    v: Vec2,
    speed: i64,
    player: Vec2,
    others: Seq<(u64, Vec2)>,
    k: nat,
)
    ensures
        chase_steps(me, pos, chase_velocity(me, pos, v, speed, player, others), speed, player, others, k)
            == chase_steps(me, pos, v, speed, player, others, k + 1),
    decreases k,
{
    let next = chase_velocity(me, pos, v, speed, player, others);
    assert(chase_steps(me, pos, v, speed, player, others, 0) == v);
    if k == 0 {
        assert(chase_steps(me, pos, v, speed, player, others, 1) == chase_velocity(
            me,
            pos,
            chase_steps(me, pos, v, speed, player, others, 0),
            speed,
            player,
            others,
        ));
    } else {
        lemma_steps_shift(me, pos, v, speed, player, others, (k - 1) as nat);
        assert(chase_steps(me, pos, next, speed, player, others, k) == chase_velocity(
            me,
            pos,
            chase_steps(me, pos, next, speed, player, others, (k - 1) as nat),
            speed,
            player,
            others,
        ));
        assert(chase_steps(me, pos, v, speed, player, others, k + 1) == chase_velocity(
            me,
            pos,
            chase_steps(me, pos, v, speed, player, others, k),
            speed,
            player,
            others,
        ));
    }
}

/// A stopped chaser within arrival range stays stopped.
proof fn lemma_stays_stopped(
    me: u64,
    pos: Vec2,
    speed: i64,
    player: Vec2,
    others: Seq<(u64, Vec2)>,
    k: nat,
)
    requires
        in_world(pos),
        in_world(player),
        speed_ok(speed),
        vlen(sub_spec(player, pos)) < ARRIVAL_RADIUS,
        no_neighbours(me, pos, others),
    ensures
        chase_steps(me, pos, zero(), speed, player, others, k) == zero(),
    decreases k,
{
    if k > 0 {
        lemma_stays_stopped(me, pos, speed, player, others, (k - 1) as nat);
        lemma_lonely_is_clear(me, pos, zero(), speed, others, others.len() as int);
        lemma_zero_len();
        assert(speed * speed >= 0) by (nonlinear_arith);
        lemma_arrival_brakes(me, pos, zero(), speed, player, others);
    }
}

/// The velocity a chaser wants is never faster than its speed.
pub proof fn lemma_desired_short(pos: Vec2, player: Vec2, speed: i64)
    requires
        in_world(pos),
        in_world(player),
        speed_ok(speed),
    ensures
        len_sq(desired_chase(pos, player, speed)) <= speed * speed,
{
    let d = sub_spec(player, pos);
    if vlen(d) < ARRIVAL_RADIUS {
        lemma_zero_len();
        assert(speed * speed >= 0) by (nonlinear_arith);
    } else {
        crate::vector::lemma_scale_bound(d, speed as int);
    }
}

/// Out of arrival range, the velocity a chaser wants is its full speed, to
/// within rounding, pointed at the player.
pub proof fn lemma_desired_full_speed(pos: Vec2, player: Vec2, speed: i64)
    requires
        in_world(pos),
        in_world(player),
        speed_ok(speed),
        vlen(sub_spec(player, pos)) >= ARRIVAL_RADIUS,
    ensures
        desired_chase(pos, player, speed) == scale_spec(sub_spec(player, pos), speed as int),
        speed * speed - 67 * speed <= len_sq(desired_chase(pos, player, speed)) <= speed * speed,
{
    lemma_desired_short(pos, player, speed);
    crate::vector::lemma_scale_lower(sub_spec(player, pos), speed as int);
}

/// With nothing in its way, a chaser within one steering step of the
/// velocity it wants takes exactly that velocity: pursuit closes in on full
/// speed toward the player rather than circling it.
pub proof fn lemma_chase_snaps(me: u64, pos: Vec2, v: Vec2, speed: i64, player: Vec2, others: Seq<(u64, Vec2)>)
    requires
        clear_ahead(me, pos, v, speed, others),
        in_world(pos),
        in_world(player),
        speed_ok(speed),
        velocity_ok(v),
        len_sq(sub_spec(desired_chase(pos, player, speed), v)) <= MAX_STEERING * MAX_STEERING,
    ensures
        chase_velocity(me, pos, v, speed, player, others) == desired_chase(pos, player, speed),
{
    let d = desired_chase(pos, player, speed);
    lemma_desired_short(pos, player, speed);
    lemma_short_is_bounded(d, speed as int);
    let seek = sub_spec(d, v);
    assert(seek.x == d.x - v.x && seek.y == d.y - v.y);
    let steer_in = add_spec(seek, zero());
    assert(steer_in == seek);
    assert(clamp_spec(steer_in, MAX_STEERING as int) == seek);
    assert(add_spec(v, seek) == d);
}

} // verus!
