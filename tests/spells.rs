use unlicheted::common::{ChangeSpellEvent, DamagesEnemy, LightningStrikeBolt, PlayerSpell};
use unlicheted::morale::EnemyMorale;
use unlicheted::player::{
    player_shoot, switch_active_spell, tick_attack_cooldowns, update_lightning_bolt, PlayerSpellData,
    Impact, SpellCast,
};
use unlicheted::vector::Vec2;

fn morale() -> EnemyMorale {
    EnemyMorale { current: 50_000, change: 0, enemies_killed: 0 }
}

#[test]
fn fireball_on_cooldown_casts_nothing_and_keeps_the_cooldown() {
    let mut data = PlayerSpellData::new();
    tick_attack_cooldowns(&mut data, 100);
    let before = data.cooldowns;
    let mut m = morale();
    let cast = player_shoot(&mut data, true, Some(Vec2::new(100_000, 0)), &Vec2::new(0, 0), 16, &mut m);
    assert_eq!(cast, None);
    assert_eq!(data.cooldowns, before);
    assert_eq!(data.cooldowns.fireball.elapsed, 100);
}

#[test]
fn ready_fireball_fans_three_and_restarts_the_cooldown() {
    let mut data = PlayerSpellData::new();
    tick_attack_cooldowns(&mut data, 300);
    assert!(data.cooldowns.fireball.finished);
    let mut m = morale();
    let cast = player_shoot(&mut data, true, Some(Vec2::new(100_000, 0)), &Vec2::new(0, 0), 16, &mut m);
    assert_eq!(
        cast,
        Some(SpellCast::Fireball {
            left: Vec2::new(353_088, -70_236),
            centre: Vec2::new(360_000, 0),
            right: Vec2::new(353_088, 70_236),
            hit: DamagesEnemy { damage: 2_000, induces_fear: true },
            splash: DamagesEnemy { damage: 1_000, induces_fear: true },
            lifetime_ms: 1_500,
        })
    );
    assert!(!data.cooldowns.fireball.finished);
    assert_eq!(data.cooldowns.fireball.elapsed, 0);
    assert_eq!(m, morale());
}

#[test]
fn lightning_and_fear_wave_casts() {
    let mut data = PlayerSpellData::new();
    data.selected = PlayerSpell::LightningStrike;
    tick_attack_cooldowns(&mut data, 800);
    let mut m = morale();
    let cast = player_shoot(&mut data, true, Some(Vec2::new(5_000, -7_000)), &Vec2::new(0, 0), 16, &mut m);
    assert_eq!(cast, Some(SpellCast::LightningStrike { start: Vec2::new(5_000, 737_000), end_y: -7_000 }));
    data.selected = PlayerSpell::FearWave;
    let cast = player_shoot(&mut data, true, Some(Vec2::new(0, -50_000)), &Vec2::new(0, 0), 16, &mut m);
    assert_eq!(
        cast,
        Some(SpellCast::FearWave {
            velocity: Vec2::new(0, -240_000),
            hit: DamagesEnemy { damage: 200, induces_fear: true },
            lifetime_ms: 4_000,
        })
    );
    assert!(data.cooldowns.lightning_strike.elapsed == 0);
}

#[test]
fn no_cursor_no_cast() {
    let mut data = PlayerSpellData::new();
    tick_attack_cooldowns(&mut data, 1_000);
    let mut m = morale();
    assert_eq!(player_shoot(&mut data, true, None, &Vec2::new(0, 0), 16, &mut m), None);
    assert!(data.cooldowns.fireball.finished);
}

#[test]
fn idling_costs_morale_after_the_grace_period() {
    let mut data = PlayerSpellData::new();
    let mut m = morale();
    player_shoot(&mut data, false, None, &Vec2::new(0, 0), 900, &mut m);
    assert_eq!(m.change, 0);
    player_shoot(&mut data, false, None, &Vec2::new(0, 0), 100, &mut m);
    assert_eq!(m.change, -100);
    player_shoot(&mut data, false, None, &Vec2::new(0, 0), 50, &mut m);
    assert_eq!(m.change, -100);
    player_shoot(&mut data, false, None, &Vec2::new(0, 0), 60, &mut m);
    assert_eq!(m.change, -200);
    player_shoot(&mut data, true, None, &Vec2::new(0, 0), 16, &mut m);
    player_shoot(&mut data, false, None, &Vec2::new(0, 0), 500, &mut m);
    assert_eq!(m.change, -200);
}

#[test]
fn spells_cycle_both_ways() {
    assert_eq!(PlayerSpell::Fireball.next(), PlayerSpell::LightningStrike);
    assert_eq!(PlayerSpell::LightningStrike.next(), PlayerSpell::FearWave);
    assert_eq!(PlayerSpell::FearWave.next(), PlayerSpell::Fireball);
    assert_eq!(PlayerSpell::Fireball.previous(), PlayerSpell::FearWave);
    for s in [PlayerSpell::Fireball, PlayerSpell::LightningStrike, PlayerSpell::FearWave] {
        assert_eq!(s.next().previous(), s);
    }
    let mut data = PlayerSpellData::new();
    assert_eq!(switch_active_spell(&mut data, true, false), Some(ChangeSpellEvent(PlayerSpell::LightningStrike)));
    assert_eq!(switch_active_spell(&mut data, false, true), Some(ChangeSpellEvent(PlayerSpell::Fireball)));
    assert_eq!(switch_active_spell(&mut data, false, false), None);
    assert_eq!(data.selected, PlayerSpell::Fireball);
}

#[test]
fn lightning_bolt_falls_to_its_mark() {
    let bolt = LightningStrikeBolt { end_y: 0 };
    assert_eq!(update_lightning_bolt(&Vec2::new(5_000, 744_000), &bolt, 100), (384_000, None));
    assert_eq!(
        update_lightning_bolt(&Vec2::new(5_000, 384_000), &bolt, 200),
        (
            -336_000,
            Some(Impact {
                at: Vec2::new(5_000, 0),
                primary: DamagesEnemy { damage: 3_000, induces_fear: true },
                splash: DamagesEnemy { damage: 2_000, induces_fear: true },
                lifetime_ms: 250,
            })
        )
    );
}
