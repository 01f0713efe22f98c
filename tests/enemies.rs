use unlicheted::combat::{
    check_enemy_player_collision, check_projectile_collision, enemy_damage_player,
    enemy_projectile_damage_player, update_enemy_shoot, ArrowLaunch, CollisionEvent,
};
use unlicheted::common::{CollisionLayers, DamagePlayerEvent, DamagesEnemy, Health};
use unlicheted::enemy::{
    afraid_step, apply_enemy_hit, archer_step, chase_step, desired_chase_velocity, enemy_flip_x,
    enemy_tint, update_enemy, EnemyAI, EnemyUnit, FearPolicy, Tint,
};
use unlicheted::timer::Timer;
use unlicheted::vector::Vec2;
use unlicheted::wave::{spawn_archer, spawn_knight};

const ENEMY: CollisionLayers = CollisionLayers { player: false, player_attack: false, enemy: true, enemy_attack: false };
const PLAYER: CollisionLayers = CollisionLayers { player: true, player_attack: false, enemy: false, enemy_attack: false };
const ATTACK: CollisionLayers = CollisionLayers { player: false, player_attack: true, enemy: false, enemy_attack: false };
const ARROW: CollisionLayers = CollisionLayers { player: false, player_attack: false, enemy: false, enemy_attack: true };

fn event(started: bool, e1: u64, l1: CollisionLayers, e2: u64, l2: CollisionLayers) -> CollisionEvent {
    CollisionEvent { started, entity_1: e1, entity_2: e2, layers_1: l1, layers_2: l2 }
}

#[test]
fn chaser_reaches_full_speed_toward_the_player_and_holds_it() {
    let pos = Vec2::new(0, 0);
    let player = Vec2::new(1_000_000, 0);
    let mut v = Vec2::new(0, 0);
    let others = Vec::new();
    for frame in 0..30 {
        v = chase_step(1, &pos, &v, 120_000, &player, &others);
        if frame < 19 {
            assert_eq!(v, Vec2::new(6_000 * (frame + 1), 0));
        }
    }
    assert_eq!(v, Vec2::new(120_000, 0));
}

#[test]
fn chaser_turns_toward_the_player_at_its_speed() {
    let pos = Vec2::new(0, 0);
    let player = Vec2::new(300_000, 400_000);
    let mut v = Vec2::new(-120_000, 0);
    let others = Vec::new();
    for _ in 0..200 {
        v = chase_step(1, &pos, &v, 120_000, &player, &others);
    }
    assert_eq!(v, Vec2::new(72_000, 96_000));
}

#[test]
fn within_arrival_range_the_chaser_wants_to_stop() {
    let pos = Vec2::new(0, 0);
    assert_eq!(desired_chase_velocity(&pos, &Vec2::new(31_000, 0), 120_000), Vec2::new(0, 0));
    assert_eq!(desired_chase_velocity(&pos, &Vec2::new(32_000, 0), 120_000), Vec2::new(120_000, 0));
    let v = chase_step(1, &pos, &Vec2::new(0, 0), 120_000, &Vec2::new(10_000, 10_000), &Vec::new());
    assert_eq!(v, Vec2::new(0, 0));
    let v = chase_step(1, &pos, &Vec2::new(3_000, 0), 120_000, &Vec2::new(10_000, 0), &Vec::new());
    assert_eq!(v, Vec2::new(0, 0));
}

#[test]
fn chaser_steers_around_a_neighbour_ahead() {
    let pos = Vec2::new(0, 0);
    let v = Vec2::new(120_000, 0);
    let player = Vec2::new(1_000_000, 0);
    let alone = chase_step(1, &pos, &v, 120_000, &player, &vec![(1, pos)]);
    assert_eq!(alone, v);
    let crowded = chase_step(1, &pos, &v, 120_000, &player, &vec![(1, pos), (2, Vec2::new(10_000, 5_000))]);
    assert!(crowded.y < 0);
    let far = chase_step(1, &pos, &v, 120_000, &player, &vec![(2, Vec2::new(30_000, 30_000))]);
    assert_eq!(far, v);
}

#[test]
fn archer_brakes_past_its_line_then_parks() {
    let v = Vec2::new(0, 180_000);
    assert_eq!(archer_step(&Vec2::new(0, -500_000), &v, -300_000), v);
    assert_eq!(archer_step(&Vec2::new(0, -300_000), &v, -300_000), Vec2::new(0, 165_000));
    assert_eq!(archer_step(&Vec2::new(0, -200_000), &Vec2::new(0, 15_000), -300_000), Vec2::new(0, 0));
    assert_eq!(archer_step(&Vec2::new(0, -200_000), &Vec2::new(0, 0), -300_000), Vec2::new(0, 0));
}

#[test]
fn afraid_enemy_runs_down_and_away() {
    let v = afraid_step(&Vec2::new(0, 0), &Vec2::new(0, 0), 120_000, &Vec2::new(0, 100_000));
    assert_eq!(v, Vec2::new(0, -120_000));
    let v = afraid_step(&Vec2::new(0, 0), &Vec2::new(0, 0), 120_000, &Vec2::new(100_000, 0));
    assert!(v.x < 0 && v.y < 0);
    assert!(v.x * v.x + v.y * v.y <= 120_000 * 120_000);
}

#[test]
fn update_without_player_changes_nothing() {
    let mut units = vec![spawn_knight(1, Vec2::new(0, 0), 9)];
    let before = units.clone();
    update_enemy(&mut units, None);
    assert_eq!(units, before);
    update_enemy(&mut units, Some(Vec2::new(0, 100_000)));
    assert_eq!(units[0].velocity, Vec2::new(0, 6_000));
    assert_eq!(units[0].position, before[0].position);
}

#[test]
fn fear_only_goes_one_way() {
    let mut u = spawn_knight(1, Vec2::new(0, 0), 9);
    let policy = FearPolicy { archer_flee_speed: None };
    apply_enemy_hit(&mut u, &DamagesEnemy { damage: 200, induces_fear: false }, &policy);
    assert_eq!(u.enemy.ai, EnemyAI::ChasesPlayer { speed: 120_000 });
    assert_eq!(u.health.current, 2_800);
    apply_enemy_hit(&mut u, &DamagesEnemy { damage: 300, induces_fear: false }, &policy);
    assert_eq!(u.enemy.ai, EnemyAI::Afraid { speed: 120_000 });
    for _ in 0..5 {
        apply_enemy_hit(&mut u, &DamagesEnemy { damage: 0, induces_fear: false }, &policy);
        let mut units = vec![u];
        update_enemy(&mut units, Some(Vec2::new(0, 0)));
        u = units[0];
        assert_eq!(u.enemy.ai, EnemyAI::Afraid { speed: 120_000 });
    }
    let mut k = spawn_knight(2, Vec2::new(0, 0), 9);
    apply_enemy_hit(&mut k, &DamagesEnemy { damage: 200, induces_fear: true }, &policy);
    assert_eq!(k.enemy.ai, EnemyAI::Afraid { speed: 120_000 });
}

#[test]
fn archers_follow_the_fear_policy() {
    let hit = DamagesEnemy { damage: 2_000, induces_fear: true };
    let mut a = spawn_archer(1, Vec2::new(0, 0), 9, 90_000, 0);
    apply_enemy_hit(&mut a, &hit, &FearPolicy { archer_flee_speed: None });
    assert_eq!(a.enemy.ai, EnemyAI::Archer { target_y: 90_000 });
    let mut b = spawn_archer(2, Vec2::new(0, 0), 9, 90_000, 0);
    apply_enemy_hit(&mut b, &hit, &FearPolicy { archer_flee_speed: Some(150_000) });
    assert_eq!(b.enemy.ai, EnemyAI::Afraid { speed: 150_000 });
}

#[test]
fn attacks_hurt_the_enemy_they_touch() {
    let mut units = vec![spawn_knight(10, Vec2::new(0, 0), 1), spawn_knight(11, Vec2::new(0, 0), 1)];
    let damagers = vec![(50u64, DamagesEnemy { damage: 2_000, induces_fear: false }), (51u64, DamagesEnemy { damage: 1_000, induces_fear: true })];
    let events = vec![
        event(true, 50, ATTACK, 11, ENEMY),
        event(false, 51, ATTACK, 10, ENEMY),
        event(true, 10, ENEMY, 99, ATTACK),
        event(true, 10, ENEMY, 51, ATTACK),
        event(true, 10, ENEMY, 51, ENEMY),
    ];
    let dealt = check_projectile_collision(&events, &mut units, &damagers, &FearPolicy { archer_flee_speed: None });
    assert!(dealt);
    assert_eq!(units[1].health.current, 1_000);
    assert_eq!(units[1].enemy.ai, EnemyAI::Afraid { speed: 120_000 });
    assert_eq!(units[0].health.current, 2_000);
    assert_eq!(units[0].enemy.ai, EnemyAI::Afraid { speed: 120_000 });
    let none = check_projectile_collision(&vec![event(true, 77, ENEMY, 50, ATTACK)], &mut units, &damagers, &FearPolicy { archer_flee_speed: None });
    assert!(!none);
}

#[test]
fn contact_damage_latches_and_repeats() {
    let mut units = vec![spawn_knight(10, Vec2::new(0, 0), 1)];
    let blows = check_enemy_player_collision(&vec![event(true, 1, PLAYER, 10, ENEMY)], &mut units);
    assert_eq!(blows, vec![DamagePlayerEvent(1_000)]);
    assert!(units[0].contact.unwrap().is_damaging);
    assert!(enemy_damage_player(&mut units, 1_000).is_empty());
    assert_eq!(enemy_damage_player(&mut units, 500), vec![DamagePlayerEvent(1_000)]);
    let blows = check_enemy_player_collision(&vec![event(false, 10, ENEMY, 1, PLAYER)], &mut units);
    assert!(blows.is_empty());
    assert!(!units[0].contact.unwrap().is_damaging);
    assert!(enemy_damage_player(&mut units, 5_000).is_empty());
}

#[test]
fn arrows_strike_once_and_vanish() {
    let events = vec![
        event(true, 30, ARROW, 1, PLAYER),
        event(false, 31, ARROW, 1, PLAYER),
        event(true, 1, PLAYER, 32, ARROW),
        event(true, 33, ARROW, 34, ENEMY),
    ];
    let (blows, gone) = enemy_projectile_damage_player(&events);
    assert_eq!(gone, vec![30, 32]);
    assert_eq!(blows, vec![DamagePlayerEvent(1_000), DamagePlayerEvent(1_000)]);
}

#[test]
fn parked_archers_shoot_on_their_interval() {
    let mut a: EnemyUnit = spawn_archer(5, Vec2::new(0, 0), 1, 0, 0);
    a.velocity = Vec2::new(0, 0);
    let mut units = vec![a];
    assert!(update_enemy_shoot(&mut units, Some(Vec2::new(100_000, 0)), 1_999).is_empty());
    let shots = update_enemy_shoot(&mut units, Some(Vec2::new(100_000, 0)), 1);
    assert_eq!(shots, vec![ArrowLaunch { origin: Vec2::new(0, 0), velocity: Vec2::new(400_000, 0) }]);
    let mut marching = vec![spawn_archer(6, Vec2::new(0, 0), 1, 0, 0)];
    assert!(update_enemy_shoot(&mut marching, Some(Vec2::new(100_000, 0)), 5_000).is_empty());
    assert_eq!(marching[0].shoot_timer, Some(Timer::from_millis(2_000, true)));
    assert!(update_enemy_shoot(&mut units, None, 5_000).is_empty());
}

#[test]
fn sprites_face_and_tint_by_state() {
    assert!(enemy_flip_x(&EnemyAI::ChasesPlayer { speed: 1 }, 5, 0));
    assert!(!enemy_flip_x(&EnemyAI::ChasesPlayer { speed: 1 }, -5, 0));
    assert!(!enemy_flip_x(&EnemyAI::Afraid { speed: 1 }, 5, 0));
    assert!(enemy_flip_x(&EnemyAI::Afraid { speed: 1 }, -5, 0));
    assert!(enemy_flip_x(&EnemyAI::Archer { target_y: 0 }, 5, 0));
    assert!(!enemy_flip_x(&EnemyAI::Archer { target_y: 0 }, -5, 0));
    let k = spawn_knight(1, Vec2::new(0, 0), 1);
    assert_eq!(enemy_tint(&k.enemy, &k.health), None);
    assert_eq!(enemy_tint(&k.enemy, &Health { current: 1_500, maximum: 3_000 }), Some(Tint { red: 1000, green: 500, blue: 500 }));
    assert_eq!(enemy_tint(&k.enemy, &Health { current: -5, maximum: 3_000 }), Some(Tint { red: 1000, green: 250, blue: 250 }));
}

#[test]
fn arrival_brakes_to_a_stop_without_reversing() {
    let pos = Vec2::new(0, 0);
    let player = Vec2::new(20_000, 0);
    let mut v = Vec2::new(90_000, -72_000);
    let mut frames = 0;
    while v != Vec2::new(0, 0) {
        let next = chase_step(1, &pos, &v, 120_000, &player, &Vec::new());
        assert!(next.x >= 0 && next.x <= v.x);
        assert!(next.y <= 0 && next.y >= v.y);
        v = next;
        frames += 1;
        assert!(frames <= (90_000 + 72_000) / 5_999 + 1);
    }
    for _ in 0..5 {
        v = chase_step(1, &pos, &v, 120_000, &player, &Vec::new());
        assert_eq!(v, Vec2::new(0, 0));
    }
}

#[test]
fn afraid_enemy_shows_fear_whatever_its_health() {
    let mut k = spawn_knight(1, Vec2::new(0, 0), 1);
    k.enemy.ai = EnemyAI::Afraid { speed: 120_000 };
    let fear = Some(Tint { red: 1000, green: 500, blue: 1000 });
    assert_eq!(enemy_tint(&k.enemy, &Health { current: 0, maximum: 3_000 }), fear);
    assert_eq!(enemy_tint(&k.enemy, &Health { current: 1_000, maximum: 3_000 }), fear);
    assert_eq!(enemy_tint(&k.enemy, &Health { current: 3_000, maximum: 3_000 }), fear);
}

#[test]
fn afraid_enemy_below_the_retreat_line_still_runs_down() {
    let v = afraid_step(&Vec2::new(0, -600_000), &Vec2::new(0, 0), 120_000, &Vec2::new(0, -700_000));
    assert_eq!(v, Vec2::new(0, -120_000));
}
