use unlicheted::common::Health;
use unlicheted::enemy::{Enemy, EnemyAI, EnemyUnit, ESCAPE_Y};
use unlicheted::morale::EnemyMorale;
use unlicheted::timer::Timer;
use unlicheted::vector::Vec2;
use unlicheted::wave::{
    despawn_enemies, pick_wave_kind, spawn_archer, spawn_archer_square_wave, spawn_enemy_wave,
    spawn_knight_line_wave, spawn_knight_square_wave, spawn_wave_of_kind, WaveCore, WaveKind,
    WaveManager, WaveWeights,
};

fn morale() -> EnemyMorale {
    EnemyMorale { current: 50_000, change: 0, enemies_killed: 0 }
}

fn manager(active: u32) -> WaveManager {
    WaveManager { active_waves: active, max_waves: 5, wave_timer: Timer::from_millis(3_000, false) }
}

fn afraid(entity: u64, health: i64, y: i64, core: Option<u64>) -> EnemyUnit {
    EnemyUnit {
        entity,
        enemy: Enemy { ai: EnemyAI::Afraid { speed: 120_000 }, wave_core: core, fear_threshold: 2_500 },
        health: Health { current: health, maximum: 3_000 },
        position: Vec2::new(0, y),
        velocity: Vec2::new(0, 0),
        contact: None,
        shoot_timer: None,
    }
}

#[test]
fn knight_square_wave_killed_to_the_last() {
    let (core, mut units) = spawn_knight_square_wave(5, 4, 0, 7, 100);
    assert_eq!(core, WaveCore { id: 7, remaining: 20 });
    assert_eq!(units.len(), 20);
    for u in units.iter_mut() {
        u.health.current = 0;
    }
    let mut cores = vec![core];
    let mut m = morale();
    let mut wm = manager(1);
    let (gone, ended) = despawn_enemies(&mut units, &mut cores, &mut m, &mut wm);
    assert_eq!(gone.len(), 20);
    assert_eq!(ended, vec![7]);
    assert!(units.is_empty());
    assert!(cores.is_empty());
    assert_eq!(wm.active_waves, 0);
    assert_eq!(m.enemies_killed, 20);
    assert_eq!(m.change, -20 * 50);
}

#[test]
fn knight_square_wave_layout_follows_columns_then_rows() {
    let (_, units) = spawn_knight_square_wave(3, 2, 10_000, 1, 0);
    let places: Vec<(i64, i64)> = units.iter().map(|u| (u.position.x, u.position.y)).collect();
    assert_eq!(
        places,
        vec![
            (10_000, -432_000),
            (10_000, -462_000),
            (30_000, -432_000),
            (30_000, -462_000),
            (50_000, -432_000),
            (50_000, -462_000),
        ]
    );
    let entities: Vec<u64> = units.iter().map(|u| u.entity).collect();
    assert_eq!(entities, vec![0, 1, 2, 3, 4, 5]);
    assert!(units.iter().all(|u| u.enemy.wave_core == Some(1)));
}

#[test]
fn knight_line_spreads_across_the_screen() {
    let (core, units) = spawn_knight_line_wave(20, 3, 0);
    assert_eq!(core.remaining, 20);
    assert_eq!(units[0].position, Vec2::new(-480_000, -432_000));
    assert_eq!(units[1].position, Vec2::new(-432_000, -432_000));
    assert_eq!(units[19].position, Vec2::new(432_000, -432_000));
}

#[test]
fn archer_square_parks_above_its_start() {
    let tilt = vec![0i64; 6];
    let (core, units) = spawn_archer_square_wave(3, 2, 0, 4, 50, &tilt);
    assert_eq!(core.remaining, 6);
    match units[1].enemy.ai {
        EnemyAI::Archer { target_y } => assert_eq!(target_y, -462_000 + 4 * 30_000),
        _ => panic!("not an archer"),
    }
    assert_eq!(units[0].velocity, Vec2::new(0, 180_000));
    assert!(units[0].shoot_timer.is_some());
    assert!(units[0].contact.is_none());
}

#[test]
fn escape_bonus_is_larger_for_the_wounded() {
    let mut units = vec![
        afraid(1, 3_000, ESCAPE_Y, None),
        afraid(2, 2_000, ESCAPE_Y - 1, None),
        afraid(3, 2_000, ESCAPE_Y + 1, None),
    ];
    let mut cores = Vec::new();
    let mut m = morale();
    let mut wm = manager(0);
    let (gone, _) = despawn_enemies(&mut units, &mut cores, &mut m, &mut wm);
    assert_eq!(gone, vec![1, 2]);
    assert_eq!(m.change, 50 + 150);
    assert_eq!(m.enemies_killed, 0);
    assert_eq!(units.len(), 1);
    assert_eq!(units[0].entity, 3);
}

#[test]
fn healthy_escape_alone_gives_the_small_bonus() {
    let mut healthy = vec![afraid(1, 3_000, ESCAPE_Y, None)];
    let mut wounded = vec![afraid(2, 2_500, ESCAPE_Y, None)];
    let (mut a, mut b) = (morale(), morale());
    let (mut ca, mut cb) = (Vec::new(), Vec::new());
    let (mut wa, mut wb) = (manager(0), manager(0));
    despawn_enemies(&mut healthy, &mut ca, &mut a, &mut wa);
    despawn_enemies(&mut wounded, &mut cb, &mut b, &mut wb);
    assert!(a.change < b.change);
    assert_eq!(a.change, 50);
    assert_eq!(b.change, 150);
}

#[test]
fn wave_count_drops_by_the_departed_only() {
    let (core, mut units) = spawn_knight_square_wave(2, 2, 0, 9, 0);
    units[0].health.current = 0;
    units[3].health.current = -500;
    let mut cores = vec![core];
    let mut m = morale();
    let mut wm = manager(1);
    despawn_enemies(&mut units, &mut cores, &mut m, &mut wm);
    assert_eq!(cores, vec![WaveCore { id: 9, remaining: 2 }]);
    assert_eq!(wm.active_waves, 1);
    assert_eq!(units.len(), 2);
}

#[test]
fn second_sweep_changes_nothing() {
    let (core, mut units) = spawn_knight_square_wave(2, 3, 0, 5, 0);
    units[1].health.current = 0;
    let mut cores = vec![core];
    let mut m = morale();
    let mut wm = manager(1);
    despawn_enemies(&mut units, &mut cores, &mut m, &mut wm);
    let (units_once, cores_once, m_once, wm_once) = (units.clone(), cores.clone(), m, wm);
    let (gone, ended) = despawn_enemies(&mut units, &mut cores, &mut m, &mut wm);
    assert!(gone.is_empty());
    assert!(ended.is_empty());
    assert_eq!(units, units_once);
    assert_eq!(cores, cores_once);
    assert_eq!(m, m_once);
    assert_eq!(wm, wm_once);
}

#[test]
fn enemy_of_a_vanished_wave_leaves_quietly() {
    let mut units = vec![afraid(1, 0, 0, Some(42))];
    let mut cores = vec![WaveCore { id: 8, remaining: 1 }];
    let mut m = morale();
    let mut wm = manager(1);
    let (gone, ended) = despawn_enemies(&mut units, &mut cores, &mut m, &mut wm);
    assert_eq!(gone, vec![1]);
    assert!(ended.is_empty());
    assert_eq!(cores, vec![WaveCore { id: 8, remaining: 1 }]);
    assert_eq!(m.enemies_killed, 1);
}

#[test]
fn waves_start_when_the_timer_runs_out_and_room_remains() {
    let mut wm = manager(0);
    assert!(spawn_enemy_wave(&mut wm, 1_000, 1, 0, &WaveWeights::uniform()).is_none());
    assert_eq!(wm.active_waves, 0);
    let (core, units) = spawn_enemy_wave(&mut wm, 2_000, 1, 0, &WaveWeights::uniform()).expect("a wave");
    assert_eq!(wm.active_waves, 1);
    assert_eq!(core.id, 1);
    assert_eq!(core.remaining as usize, units.len());
    assert!(units.len() >= 6 && units.len() <= 35);
    assert!(!wm.wave_timer.finished);
    for (k, u) in units.iter().enumerate() {
        assert_eq!(u.entity, k as u64);
        assert_eq!(u.enemy.wave_core, Some(1));
    }
}

#[test]
fn no_wave_beyond_the_cap() {
    let mut wm = WaveManager { active_waves: 5, max_waves: 5, wave_timer: Timer::from_millis(3_000, false) };
    assert!(spawn_enemy_wave(&mut wm, 5_000, 1, 0, &WaveWeights::uniform()).is_none());
    assert_eq!(wm.active_waves, 5);
    assert!(wm.wave_timer.finished);
}

#[test]
fn drawn_waves_stay_within_their_ranges() {
    for round in 0..50u64 {
        let mut wm = manager(0);
        let (_, units) = spawn_enemy_wave(&mut wm, 3_000, round, 0, &WaveWeights::uniform()).expect("a wave");
        let n = units.len();
        let line = units.iter().all(|u| u.position.y == -432_000) && n >= 20;
        if line {
            assert!((20..=25).contains(&n));
        } else {
            assert!(n >= 6 && n <= 35);
        }
        for u in units.iter() {
            assert!(u.position.x >= -480_000 - 1 && u.position.x <= 480_000 + 7 * 20_000);
            if let EnemyAI::Archer { .. } = u.enemy.ai {
                assert!(u.velocity.x.abs() <= 4_420);
                let sq = u.velocity.x * u.velocity.x + u.velocity.y * u.velocity.y;
                assert!(sq <= 180_000 * 180_000 && sq >= 180_000 * 180_000 - 67 * 180_000);
            }
        }
    }
}

#[test]
fn draws_pick_kinds_by_weight() {
    let uniform = WaveWeights::uniform();
    assert_eq!(pick_wave_kind(0, &uniform), WaveKind::KnightLine);
    assert_eq!(pick_wave_kind(1, &uniform), WaveKind::KnightSquare);
    assert_eq!(pick_wave_kind(2, &uniform), WaveKind::ArcherSquare);
    let tied = WaveWeights { knight_line: 1, knight_square: 2, archer_square: 1 };
    assert_eq!(pick_wave_kind(1, &tied), WaveKind::KnightSquare);
    assert_eq!(pick_wave_kind(2, &tied), WaveKind::KnightSquare);
    assert_eq!(pick_wave_kind(3, &tied), WaveKind::ArcherSquare);
    let no_lines = WaveWeights { knight_line: 0, knight_square: 1, archer_square: 1 };
    assert_eq!(pick_wave_kind(0, &no_lines), WaveKind::KnightSquare);
}

#[test]
fn each_kind_spawns_its_formation() {
    for _ in 0..20 {
        let (core, line) = spawn_wave_of_kind(WaveKind::KnightLine, 4, 10);
        assert!((20..=25).contains(&line.len()));
        assert_eq!(core.remaining as usize, line.len());
        assert!(line.iter().all(|u| u.position.y == -432_000 && u.contact.is_some()));
        let (_, square) = spawn_wave_of_kind(WaveKind::KnightSquare, 4, 10);
        assert!(square.len() >= 12 && square.len() <= 35);
        assert!(square.iter().all(|u| matches!(u.enemy.ai, EnemyAI::ChasesPlayer { .. })));
        let (_, archers) = spawn_wave_of_kind(WaveKind::ArcherSquare, 4, 10);
        assert!(archers.len() >= 6 && archers.len() <= 12);
        assert!(archers.iter().all(|u| matches!(u.enemy.ai, EnemyAI::Archer { .. })));
    }
}

#[test]
fn tilted_archer_marches_at_its_speed() {
    let a = spawn_archer(1, Vec2::new(0, 0), 1, 0, 2_455);
    assert_eq!(a.velocity, Vec2::new(4_417, 179_944));
    let b = spawn_archer(1, Vec2::new(0, 0), 1, 0, -2_455);
    assert_eq!(b.velocity, Vec2::new(-4_417, 179_944));
}
