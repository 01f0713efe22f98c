use unlicheted::common::{match_pair, CollisionLayers, CurrentTime, GamePhysicsLayer, Health, SpellCooldowns};
use unlicheted::player::{health_bar, next_frame, player_move, reset_timer, update_timer, Facing, HealthTone};
use unlicheted::timer::Timer;
use unlicheted::vector::Vec2;
use unlicheted::wave::WaveManager;
use unlicheted::common::{DayEndReason, EndDayEvent};

#[test]
fn repeating_timer_counts_every_completion() {
    let mut t = Timer::from_millis(100, true);
    t.tick(250);
    assert!(t.just_finished());
    assert_eq!(t.times_finished, 2);
    assert_eq!(t.elapsed, 50);
    t.tick(10);
    assert!(!t.just_finished());
    assert_eq!(t.elapsed, 60);
}

#[test]
fn one_shot_timer_stays_finished_until_reset() {
    let mut t = Timer::from_millis(300, false);
    t.tick(299);
    assert!(!t.finished());
    t.tick(5);
    assert!(t.finished() && t.just_finished());
    assert_eq!(t.elapsed, 300);
    t.tick(5);
    assert!(t.finished() && !t.just_finished());
    t.reset();
    assert!(!t.finished());
    assert_eq!(t.remaining(), 300);
}

#[test]
fn cooldowns_tick_together() {
    let mut c = SpellCooldowns::default();
    c.tick_all(750);
    assert!(c.fireball.finished);
    assert!(!c.lightning_strike.finished);
    assert!(c.fear_wave.finished);
}

#[test]
fn vectors_measure_and_rescale() {
    let v = Vec2::new(3_000, -4_000);
    assert_eq!(v.length(), 5_000);
    assert_eq!(v.length_sq(), 25_000_000);
    assert_eq!(v.scale_to(10), Vec2::new(6, -8));
    assert_eq!(v.clamp_length_max(10_000), v);
    assert_eq!(v.clamp_length_max(500), Vec2::new(300, -400));
    assert_eq!(Vec2::new(0, 0).scale_to(100), Vec2::new(0, 0));
    assert_eq!(Vec2::new(1, 1).length(), 2);
    assert_eq!(Vec2::new(0, 0).distance(&Vec2::new(6, 8)), 10);
    assert_eq!(Vec2::new(10_000, 0).rotate(9_808, 1_951), Vec2::new(9_808, 1_951));
    assert_eq!(Vec2::new(-7, 3).add(&Vec2::new(7, -3)), Vec2::new(0, 0));
}

#[test]
fn collisions_pair_by_exclusive_groups() {
    let enemy = CollisionLayers { player: false, player_attack: false, enemy: true, enemy_attack: false };
    let player = CollisionLayers { player: true, player_attack: false, enemy: false, enemy_attack: false };
    let both = CollisionLayers { player: true, player_attack: false, enemy: true, enemy_attack: false };
    assert!(enemy.contains_group(GamePhysicsLayer::Enemy));
    assert_eq!(match_pair(&enemy, &player, GamePhysicsLayer::Enemy, GamePhysicsLayer::Player), Some(true));
    assert_eq!(match_pair(&player, &enemy, GamePhysicsLayer::Enemy, GamePhysicsLayer::Player), Some(false));
    assert_eq!(match_pair(&both, &player, GamePhysicsLayer::Enemy, GamePhysicsLayer::Player), None);
}

#[test]
fn health_starts_full() {
    assert_eq!(Health::full(3_000), Health { current: 3_000, maximum: 3_000 });
}

#[test]
fn health_bar_width_and_colour() {
    assert_eq!(health_bar(&Health { current: 200_000, maximum: 200_000 }), (1_000, HealthTone::Full));
    assert_eq!(health_bar(&Health { current: 197_000, maximum: 200_000 }), (985, HealthTone::Full));
    assert_eq!(health_bar(&Health { current: 100_000, maximum: 200_000 }), (500, HealthTone::Normal));
    assert_eq!(health_bar(&Health { current: 50_000, maximum: 200_000 }), (250, HealthTone::Low));
    assert_eq!(health_bar(&Health { current: -1, maximum: 200_000 }), (0, HealthTone::Low));
}

#[test]
fn player_moves_a_step_per_key() {
    let (p, f) = player_move(&Vec2::new(0, 0), true, false, true, false);
    assert_eq!(p, Vec2::new(-4_000, 4_000));
    assert_eq!(f, Facing::Left);
    let (p, f) = player_move(&Vec2::new(0, 0), true, true, false, true);
    assert_eq!(p, Vec2::new(0, -4_000));
    assert_eq!(f, Facing::Right);
    assert_eq!(player_move(&Vec2::new(1, 1), false, false, false, false), (Vec2::new(1, 1), Facing::Unchanged));
}

#[test]
fn day_clock_runs_out() {
    let mut time = CurrentTime(Timer::from_millis(60_000, false));
    assert_eq!(update_timer(&mut time, 59_000), None);
    assert_eq!(time.time_remaining(), 1_000);
    assert_eq!(update_timer(&mut time, 1_000), Some(EndDayEvent { reason: DayEndReason::Timeout }));
    assert_eq!(time.time_remaining(), 0);
    let mut wm = WaveManager { active_waves: 3, max_waves: 5, wave_timer: Timer::from_millis(3_000, false) };
    reset_timer(&mut time, &mut wm);
    assert_eq!(wm.active_waves, 0);
    assert_eq!(time.time_remaining(), 60_000);
}

#[test]
fn animation_wraps_round() {
    assert_eq!(next_frame(0, 4), 1);
    assert_eq!(next_frame(3, 4), 0);
}
