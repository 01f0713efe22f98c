//! Collision events turned into damage: attacks on enemies, enemies touching
//! the player, arrows striking the player, and the archers' volleys.
use vstd::prelude::*;
use crate::common::{
    pair_side, CollisionLayers, DamagePlayerEvent, DamagesEnemy, DamagesPlayer, GamePhysicsLayer,
    match_pair,
};
use crate::enemy::{
    all_wf, apply_enemy_hit, damage_ok, health_ok, hit_unit, in_world, is_afraid, EnemyUnit, FearPolicy,
};
use crate::timer::MAX_TICK_MS;
use crate::vector::{scale_spec, sub_spec, Vec2};

verus! {

/// Damage an arrow deals to the player.
pub const ARROW_DAMAGE: i64 = 1_000;

/// Speed of an arrow.
pub const ARROW_SPEED: i64 = 400_000;

/// The physics engine's report that two bodies began or stopped touching.
#[derive(Clone, Copy, Debug, PartialEq, Eq, Structural)]
pub struct CollisionEvent {
    pub started: bool,
    pub entity_1: u64,
    pub entity_2: u64,
    pub layers_1: CollisionLayers,
    pub layers_2: CollisionLayers,
}

/// The body of side `first` (the first body, or else the second).
pub open spec fn side_entity(ev: CollisionEvent, first: bool) -> u64 {
    if first {
        ev.entity_1
    } else {
        ev.entity_2
    }
}

/// Index of the first enemy at or after `k` with the given entity, or -1.
pub open spec fn unit_index(s: Seq<EnemyUnit>, id: u64, k: int) -> int
    decreases s.len() - k,
{
    if k < 0 || k >= s.len() {
        -1
    } else if s[k].entity == id {
        k
    } else {
        unit_index(s, id, k + 1)
    }
}

/// Index of the first attack at or after `k` with the given entity, or -1.
pub open spec fn damager_index(s: Seq<(u64, DamagesEnemy)>, id: u64, k: int) -> int
    decreases s.len() - k,
{
    if k < 0 || k >= s.len() {
        -1
    } else if s[k].0 == id {
        k
    } else {
        damager_index(s, id, k + 1)
    }
}

pub fn find_unit(s: &Vec<EnemyUnit>, id: u64) -> (r: Option<usize>)
    ensures
        r matches Some(i) ==> i == unit_index(s@, id, 0) && i < s@.len(),
        r is None ==> unit_index(s@, id, 0) == -1,
{
    let mut k: usize = 0;
    while k < s.len()
        invariant
            0 <= k <= s@.len(),
            unit_index(s@, id, 0) == unit_index(s@, id, k as int),
        decreases s@.len() - k,
    {
        if s[k].entity == id {
            return Some(k);
        }
        k = k + 1;
    }
    None
}

fn find_damager(s: &Vec<(u64, DamagesEnemy)>, id: u64) -> (r: Option<usize>)
    ensures
        r matches Some(i) ==> i == damager_index(s@, id, 0) && i < s@.len(),
        r is None ==> damager_index(s@, id, 0) == -1,
{
    let mut k: usize = 0;
    while k < s.len()
        invariant
            0 <= k <= s@.len(),
            damager_index(s@, id, 0) == damager_index(s@, id, k as int),
        decreases s@.len() - k,
    {
        if s[k].0 == id {
            return Some(k);
        }
        k = k + 1;
    }
    None
}

pub open spec fn units_ok(s: Seq<EnemyUnit>) -> bool {
    &&& all_wf(s)
    &&& forall|i: int| 0 <= i < s.len() ==> health_ok(#[trigger] s[i].health)
}

pub open spec fn damagers_ok(s: Seq<(u64, DamagesEnemy)>) -> bool {
    forall|i: int| 0 <= i < s.len() ==> damage_ok(#[trigger] s[i].1)
}

/// One collision between a player attack and an enemy: the enemy takes the
/// attack's damage. Events naming bodies that are gone are skipped.
pub open spec fn attack_step(
    units: Seq<EnemyUnit>,
    damagers: Seq<(u64, DamagesEnemy)>,
    policy: FearPolicy,
    ev: CollisionEvent,
) -> (Seq<EnemyUnit>, bool) {
    if !ev.started {
        (units, false)
    } else {
        match pair_side(ev.layers_1, ev.layers_2, GamePhysicsLayer::Enemy, GamePhysicsLayer::PlayerAttack) {
            None => (units, false),
            Some(first) => {
                let ui = unit_index(units, side_entity(ev, first), 0);
                let di = damager_index(damagers, side_entity(ev, !first), 0);
                if ui >= 0 && di >= 0 {
                    (units.update(ui, hit_unit(units[ui], damagers[di].1, policy)), true)
                } else {
                    (units, false)
                }
            },
        }
    }
}

/// The first `n` events applied in order, and whether any dealt damage.
pub open spec fn attacks_applied(
    units: Seq<EnemyUnit>,
    damagers: Seq<(u64, DamagesEnemy)>,
    policy: FearPolicy,
    events: Seq<CollisionEvent>,
    n: int,
) -> (Seq<EnemyUnit>, bool)
    decreases n,
{
    if n <= 0 {
        (units, false)
    } else {
        let before = attacks_applied(units, damagers, policy, events, n - 1);
        let after = attack_step(before.0, damagers, policy, events[n - 1]);
        (after.0, before.1 || after.1)
    }
}

/// Resolves player attacks against enemies; returns whether any enemy was
/// hurt.
pub fn check_projectile_collision(
    events: &Vec<CollisionEvent>,
    units: &mut Vec<EnemyUnit>,
    damagers: &Vec<(u64, DamagesEnemy)>,
    policy: &FearPolicy,
) -> (r: bool)
    requires
        units_ok(old(units)@),
        damagers_ok(damagers@),
        policy.wf(),
    ensures
        (final(units)@, r) == attacks_applied(old(units)@, damagers@, *policy, events@, events@.len() as int),
        units_ok(final(units)@),
{
    let ghost start = units@;
    let mut dealt = false;
    let mut i: usize = 0;
    while i < events.len()
        invariant
            0 <= i <= events@.len(),
            units_ok(units@),
            damagers_ok(damagers@),
            policy.wf(),
            (units@, dealt) == attacks_applied(start, damagers@, *policy, events@, i as int),
        decreases events@.len() - i,
    {
        let ev = events[i];
        if ev.started {
            if let Some(first) = match_pair(
                &ev.layers_1,
                &ev.layers_2,
                GamePhysicsLayer::Enemy,
                GamePhysicsLayer::PlayerAttack,
            ) {
                let (e_enemy, e_damager) = if first {
                    (ev.entity_1, ev.entity_2)
                } else {
                    (ev.entity_2, ev.entity_1)
                };
                if let Some(ui) = find_unit(units, e_enemy) {
                    if let Some(di) = find_damager(damagers, e_damager) {
                        let d = damagers[di].1;
                        let mut u = units[ui];
                        proof {
                            assert(units@[ui as int].wf());
                            assert(health_ok(units@[ui as int].health));
                            assert(damage_ok(damagers@[di as int].1));
                        }
                        apply_enemy_hit(&mut u, &d, policy);
                        units.set(ui, u);
                        dealt = true;
                        proof {
                            assert forall|j: int| 0 <= j < units@.len() implies (#[trigger] units@[j]).wf()
                                && health_ok(units@[j].health) by {}
                        }
                    }
                }
            }
        }
        i = i + 1;
    }
    dealt
}

/// One collision between an enemy and the player: a melee enemy starts (or
/// stops) dealing contact damage, and a start deals one blow at once.
pub open spec fn contact_step(units: Seq<EnemyUnit>, ev: CollisionEvent) -> (Seq<EnemyUnit>, Option<i64>) {
    match pair_side(ev.layers_1, ev.layers_2, GamePhysicsLayer::Enemy, GamePhysicsLayer::Player) {
        None => (units, None),
        Some(first) => {
            let ui = unit_index(units, side_entity(ev, first), 0);
            if ui < 0 {
                (units, None)
            } else {
                match units[ui].contact {
                    None => (units, None),
                    Some(c) => (
                        units.update(
                            ui,
                            EnemyUnit {
                                contact: Some(DamagesPlayer { is_damaging: ev.started, ..c }),
                                ..units[ui]
                            },
                        ),
                        if ev.started {
                            Some(c.damage)
                        } else {
                            None
                        },
                    ),
                }
            }
        },
    }
}

pub open spec fn contacts_applied(units: Seq<EnemyUnit>, events: Seq<CollisionEvent>, n: int) -> (
    Seq<EnemyUnit>,
    Seq<DamagePlayerEvent>,
)
    decreases n,
{
    if n <= 0 {
        (units, Seq::empty())
    } else {
        let before = contacts_applied(units, events, n - 1);
        let after = contact_step(before.0, events[n - 1]);
        (
            after.0,
            match after.1 {
                Some(d) => before.1.push(DamagePlayerEvent(d)),
                None => before.1,
            },
        )
    }
}

/// Latches and releases contact damage; returns the blows dealt on contact.
pub fn check_enemy_player_collision(events: &Vec<CollisionEvent>, units: &mut Vec<EnemyUnit>) -> (r:
    Vec<DamagePlayerEvent>)
    requires
        units_ok(old(units)@),
    ensures
        (final(units)@, r@) == contacts_applied(old(units)@, events@, events@.len() as int),
        units_ok(final(units)@),
{
    let ghost start = units@;
    let mut out: Vec<DamagePlayerEvent> = Vec::new();
    let mut i: usize = 0;
    while i < events.len()
        invariant
            0 <= i <= events@.len(),
            units_ok(units@),
            (units@, out@) == contacts_applied(start, events@, i as int),
        decreases events@.len() - i,
    {
        let ev = events[i];
        if let Some(first) = match_pair(
            &ev.layers_1,
            &ev.layers_2,
            GamePhysicsLayer::Enemy,
            GamePhysicsLayer::Player,
        ) {
            let e_enemy = if first {
                ev.entity_1
            } else {
                ev.entity_2
            };
            if let Some(ui) = find_unit(units, e_enemy) {
                let u = units[ui];
                if let Some(c) = u.contact {
                    proof {
                        assert(units@[ui as int].wf());
                        assert(health_ok(units@[ui as int].health));
                    }
                    units.set(
                        ui,
                        EnemyUnit { contact: Some(DamagesPlayer { is_damaging: ev.started, ..c }), ..u },
                    );
                    if ev.started {
                        out.push(DamagePlayerEvent(c.damage));
                    }
                    proof {
                        assert forall|j: int| 0 <= j < units@.len() implies (#[trigger] units@[j]).wf()
                            && health_ok(units@[j].health) by {}
                    }
                }
            }
        }
        i = i + 1;
    }
    out
}

/// One collision between an arrow and the player.
pub open spec fn arrow_step(ev: CollisionEvent) -> Option<u64> {
    if ev.started {
        match pair_side(ev.layers_1, ev.layers_2, GamePhysicsLayer::EnemyAttack, GamePhysicsLayer::Player) {
            Some(first) => Some(side_entity(ev, first)),
            None => None,
        }
    } else {
        None
    }
}

/// The arrows that struck the player among the first `n` events.
pub open spec fn arrows_landed(events: Seq<CollisionEvent>, n: int) -> Seq<u64>
    decreases n,
{
    if n <= 0 {
        Seq::empty()
    } else {
        match arrow_step(events[n - 1]) {
            Some(e) => arrows_landed(events, n - 1).push(e),
            None => arrows_landed(events, n - 1),
        }
    }
}

/// Arrows that strike the player: each deals a fixed blow and is removed.
/// Returns the blows and the arrows to remove.
pub fn enemy_projectile_damage_player(events: &Vec<CollisionEvent>) -> (r: (
    Vec<DamagePlayerEvent>,
    Vec<u64>,
))
    ensures
        r.1@ == arrows_landed(events@, events@.len() as int),
        r.0@.len() == r.1@.len(),
        forall|i: int| 0 <= i < r.0@.len() ==> #[trigger] r.0@[i] == DamagePlayerEvent(ARROW_DAMAGE),
{
    let mut blows: Vec<DamagePlayerEvent> = Vec::new();
    let mut gone: Vec<u64> = Vec::new();
    let mut i: usize = 0;
    while i < events.len()
        invariant
            0 <= i <= events@.len(),
            gone@ == arrows_landed(events@, i as int),
            blows@.len() == gone@.len(),
            forall|k: int| 0 <= k < blows@.len() ==> #[trigger] blows@[k] == DamagePlayerEvent(ARROW_DAMAGE),
        decreases events@.len() - i,
    {
        let ev = events[i];
        if ev.started {
            if let Some(first) = match_pair(
                &ev.layers_1,
                &ev.layers_2,
                GamePhysicsLayer::EnemyAttack,
                GamePhysicsLayer::Player,
            ) {
                let arrow = if first {
                    ev.entity_1
                } else {
                    ev.entity_2
                };
                blows.push(DamagePlayerEvent(ARROW_DAMAGE));
                gone.push(arrow);
            }
        }
        i = i + 1;
    }
    (blows, gone)
}

/// A latched melee enemy after its contact timer ran `delta` milliseconds.
pub open spec fn contact_ticked(u: EnemyUnit, delta: u64) -> EnemyUnit {
    match u.contact {
        Some(c) => if c.is_damaging {
            EnemyUnit { contact: Some(DamagesPlayer { tick: c.tick.ticked(delta), ..c }), ..u }
        } else {
            u
        },
        None => u,
    }
}

/// The blow a latched melee enemy deals this frame, if its timer came round.
pub open spec fn contact_blow(u: EnemyUnit, delta: u64) -> Option<i64> {
    match u.contact {
        Some(c) => if c.is_damaging && c.tick.ticked(delta).times_finished > 0 {
            Some(c.damage)
        } else {
            None
        },
        None => None,
    }
}

pub open spec fn contact_blows(s: Seq<EnemyUnit>, delta: u64, n: int) -> Seq<DamagePlayerEvent>
    decreases n,
{
    if n <= 0 {
        Seq::empty()
    } else {
        match contact_blow(s[n - 1], delta) {
            Some(d) => contact_blows(s, delta, n - 1).push(DamagePlayerEvent(d)),
            None => contact_blows(s, delta, n - 1),
        }
    }
}

/// Repeats contact damage for every enemy still touching the player.
pub fn enemy_damage_player(units: &mut Vec<EnemyUnit>, delta: u64) -> (r: Vec<DamagePlayerEvent>)
    requires
        units_ok(old(units)@),
        delta <= MAX_TICK_MS,
    ensures
        final(units)@.len() == old(units)@.len(),
        forall|i: int|
            0 <= i < old(units)@.len() ==> #[trigger] final(units)@[i] == contact_ticked(
                old(units)@[i],
                delta,
            ),
        r@ == contact_blows(old(units)@, delta, old(units)@.len() as int),
        units_ok(final(units)@),
{
    let ghost start = units@;
    let mut out: Vec<DamagePlayerEvent> = Vec::new();
    let mut i: usize = 0;
    while i < units.len()
        invariant
            0 <= i <= units@.len(),
            units@.len() == start.len(),
            units_ok(start),
            units_ok(units@),
            delta <= MAX_TICK_MS,
            forall|j: int| 0 <= j < i ==> #[trigger] units@[j] == contact_ticked(start[j], delta),
            forall|j: int| i <= j < start.len() ==> #[trigger] units@[j] == start[j],
            out@ == contact_blows(start, delta, i as int),
        decreases units@.len() - i,
    {
        let u = units[i];
        proof {
            assert(units@[i as int] == start[i as int]);
            assert(u.wf());
        }
        if let Some(c) = u.contact {
            if c.is_damaging {
                let mut t = c.tick;
                t.tick(delta);
                if t.just_finished() {
                    out.push(DamagePlayerEvent(c.damage));
                }
                units.set(i, EnemyUnit { contact: Some(DamagesPlayer { tick: t, ..c }), ..u });
                proof {
                    assert forall|j: int| 0 <= j < units@.len() implies (#[trigger] units@[j]).wf()
                        && health_ok(units@[j].health) by {}
                }
            }
        }
        i = i + 1;
    }
    out
}

/// An arrow loosed by an archer.
#[derive(Clone, Copy, Debug, PartialEq, Eq, Structural)]
pub struct ArrowLaunch {
    pub origin: Vec2,
    pub velocity: Vec2,
}

/// A parked archer's shot timer after `delta` milliseconds.
pub open spec fn shooter_ticked(u: EnemyUnit, delta: u64) -> EnemyUnit {
    match u.shoot_timer {
        Some(t) => if u.velocity.x == 0 && u.velocity.y == 0 {
            EnemyUnit { shoot_timer: Some(t.ticked(delta)), ..u }
        } else {
            u
        },
        None => u,
    }
}

pub open spec fn shoots_now(u: EnemyUnit, delta: u64) -> bool {
    match u.shoot_timer {
        Some(t) => u.velocity.x == 0 && u.velocity.y == 0 && t.ticked(delta).times_finished > 0,
        None => false,
    }
}

pub open spec fn arrow_for(u: EnemyUnit, player: Vec2) -> ArrowLaunch {
    ArrowLaunch {
        origin: u.position,
        velocity: scale_spec(sub_spec(player, u.position), ARROW_SPEED as int),
    }
}

pub open spec fn volley(s: Seq<EnemyUnit>, player: Vec2, delta: u64, n: int) -> Seq<ArrowLaunch>
    decreases n,
{
    if n <= 0 {
        Seq::empty()
    } else if shoots_now(s[n - 1], delta) {
        volley(s, player, delta, n - 1).push(arrow_for(s[n - 1], player))
    } else {
        volley(s, player, delta, n - 1)
    }
}

/// Parked archers shoot at the player whenever their interval comes round.
/// Without a player nothing happens.
pub fn update_enemy_shoot(units: &mut Vec<EnemyUnit>, player: Option<Vec2>, delta: u64) -> (r: Vec<
    ArrowLaunch,
>)
    requires
        units_ok(old(units)@),
        delta <= MAX_TICK_MS,
        player matches Some(p) ==> in_world(p),
    ensures
        player is None ==> final(units)@ == old(units)@ && r@.len() == 0,
        player matches Some(p) ==> {
            &&& final(units)@.len() == old(units)@.len()
            &&& forall|i: int|
                0 <= i < old(units)@.len() ==> #[trigger] final(units)@[i] == shooter_ticked(
                    old(units)@[i],
                    delta,
                )
            &&& r@ == volley(old(units)@, p, delta, old(units)@.len() as int)
        },
        units_ok(final(units)@),
{
    let p = match player {
        Some(p) => p,
        None => return Vec::new(),
    };
    let ghost start = units@;
    let mut out: Vec<ArrowLaunch> = Vec::new();
    let mut i: usize = 0;
    while i < units.len()
        invariant
            0 <= i <= units@.len(),
            units@.len() == start.len(),
            units_ok(start),
            units_ok(units@),
            in_world(p),
            delta <= MAX_TICK_MS,
            forall|j: int| 0 <= j < i ==> #[trigger] units@[j] == shooter_ticked(start[j], delta),
            forall|j: int| i <= j < start.len() ==> #[trigger] units@[j] == start[j],
            out@ == volley(start, p, delta, i as int),
        decreases units@.len() - i,
    {
        let u = units[i];
        proof {
            assert(units@[i as int] == start[i as int]);
            assert(u.wf());
        }
        if let Some(t0) = u.shoot_timer {
            if u.velocity.is_zero() {
                let mut t = t0;
                t.tick(delta);
                if t.just_finished() {
                    let aim = p.sub(&u.position).scale_to(ARROW_SPEED);
                    out.push(ArrowLaunch { origin: u.position, velocity: aim });
                }
                units.set(i, EnemyUnit { shoot_timer: Some(t), ..u });
                proof {
                    assert forall|j: int| 0 <= j < units@.len() implies (#[trigger] units@[j]).wf()
                        && health_ok(units@[j].health) by {}
                }
            }
        }
        i = i + 1;
    }
    out
}

proof fn lemma_unit_index_range(s: Seq<EnemyUnit>, id: u64, k: int)
    requires
        0 <= k,
    ensures
        unit_index(s, id, k) == -1 || (k <= unit_index(s, id, k) < s.len()),
    decreases s.len() - k,
{
    if k < s.len() && s[k].entity != id {
        lemma_unit_index_range(s, id, k + 1);
    }
}

proof fn lemma_attack_step_keeps_fear(
    units: Seq<EnemyUnit>,
    damagers: Seq<(u64, DamagesEnemy)>,
    policy: FearPolicy,
    ev: CollisionEvent,
)
    ensures
        attack_step(units, damagers, policy, ev).0.len() == units.len(),
        forall|i: int|
            0 <= i < units.len() && is_afraid(#[trigger] units[i].enemy.ai) ==> attack_step(
                units,
                damagers,
                policy,
                ev,
            ).0[i].enemy.ai == units[i].enemy.ai,
{
    if ev.started {
        if let Some(first) = pair_side(ev.layers_1, ev.layers_2, GamePhysicsLayer::Enemy, GamePhysicsLayer::PlayerAttack) {
            lemma_unit_index_range(units, side_entity(ev, first), 0);
        }
    }
}

/// However many attacks land in a frame, an enemy that was afraid is still
/// afraid afterwards, at the same speed, and no enemy is added or lost.
pub proof fn lemma_attacks_keep_fear(
    units: Seq<EnemyUnit>,
    damagers: Seq<(u64, DamagesEnemy)>,
    policy: FearPolicy,
    events: Seq<CollisionEvent>,
    n: int,
)
    ensures
        attacks_applied(units, damagers, policy, events, n).0.len() == units.len(),
        forall|i: int|
            0 <= i < units.len() && is_afraid(#[trigger] units[i].enemy.ai) ==> attacks_applied(
                units,
                damagers,
                policy,
                events,
                n,
            ).0[i].enemy.ai == units[i].enemy.ai,
    decreases n,
{
    if n > 0 {
        lemma_attacks_keep_fear(units, damagers, policy, events, n - 1);
        let before = attacks_applied(units, damagers, policy, events, n - 1).0;
        let after = attack_step(before, damagers, policy, events[n - 1]).0;
        lemma_attack_step_keeps_fear(before, damagers, policy, events[n - 1]);
        assert forall|i: int| 0 <= i < units.len() && is_afraid(#[trigger] units[i].enemy.ai) implies after[i].enemy.ai
            == units[i].enemy.ai by {
            assert(before[i].enemy.ai == units[i].enemy.ai);
            assert(is_afraid(before[i].enemy.ai));
        }
    }
}

} // verus!
