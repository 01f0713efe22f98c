use unlicheted::common::{DamagePlayerEvent, DayEndReason, EndDayEvent, GameState, Health};
use unlicheted::morale::{
    day_verdict, morale_outlook, new_session, settle_day, start_day, CurrentDay, DayVerdict,
    EnemyMorale, MoraleOutlook,
};
use unlicheted::player::register_player_damage;

fn tally(change: i64, killed: u32) -> EnemyMorale {
    EnemyMorale { current: 50_000, change, enemies_killed: killed }
}

#[test]
fn three_points_of_contact_damage_is_not_dominance() {
    let mut health = Health::full(200_000);
    let mut day = CurrentDay { day: 1, player_damaged: 0 };
    let blows = vec![DamagePlayerEvent(1_000), DamagePlayerEvent(1_000), DamagePlayerEvent(1_000)];
    let (hit, ended) = register_player_damage(&mut health, &blows, &mut day);
    assert!(hit);
    assert!(ended.is_none());
    assert_eq!(day.player_damaged, 3_000);
    assert_eq!(health.current, 197_000);

    let mut m = tally(0, 40);
    let verdict = settle_day(&mut m, &day, Some(EndDayEvent { reason: DayEndReason::Timeout }));
    assert_eq!(verdict, Some(DayVerdict::Wounded));
    assert_eq!(m.current, 50_000 + 300);
    assert_eq!(m.change, 0);
    assert_eq!(m.enemies_killed, 0);
}

#[test]
fn barely_touched_day_is_crushing_dominance() {
    let day = CurrentDay { day: 2, player_damaged: 2_999 };
    let mut m = tally(0, 40);
    let verdict = settle_day(&mut m, &day, Some(EndDayEvent { reason: DayEndReason::Timeout }));
    assert_eq!(verdict, Some(DayVerdict::Untouched));
    // -10 on the second day weighs a quarter more: -12.5.
    assert_eq!(m.current, 50_000 - 10_000 - 2_500);
}

#[test]
fn few_kills_and_death_verdicts() {
    assert_eq!(day_verdict(39, DayEndReason::PlayerDeath, 0), DayVerdict::FewKills);
    assert_eq!(day_verdict(40, DayEndReason::PlayerDeath, 0), DayVerdict::PlayerFell);
    let day = CurrentDay { day: 3, player_damaged: 0 };
    let mut m = tally(-5_000, 10);
    settle_day(&mut m, &day, Some(EndDayEvent { reason: DayEndReason::Timeout }));
    // change -20 weighted by 1 + 2/4.
    assert_eq!(m.current, 50_000 - 20_000 - 10_000);
    let mut m = tally(-100, 45);
    settle_day(&mut m, &day, Some(EndDayEvent { reason: DayEndReason::PlayerDeath }));
    // change raised to at least +10, here exactly 24.9.
    assert_eq!(m.current, 50_000 + 24_900 + 12_450);
}

#[test]
fn first_day_is_clamped_to_the_middle() {
    let day = CurrentDay { day: 1, player_damaged: 0 };
    let mut m = tally(1_000_000, 0);
    settle_day(&mut m, &day, None);
    assert_eq!(m.current, 85_000);
    let mut m = tally(-1_000_000, 0);
    settle_day(&mut m, &day, None);
    assert_eq!(m.current, 15_000);
}

#[test]
fn later_days_are_clamped_to_the_whole_range() {
    let day = CurrentDay { day: 5, player_damaged: 0 };
    let mut m = tally(1_000_000, 0);
    settle_day(&mut m, &day, None);
    assert_eq!(m.current, 100_000);
    let mut m = tally(-1_000_000, 0);
    settle_day(&mut m, &day, None);
    assert_eq!(m.current, 0);
    let mut m = tally(-3, 0);
    settle_day(&mut m, &CurrentDay { day: 2, player_damaged: 0 }, None);
    // -3 and a quarter of it rounded down.
    assert_eq!(m.current, 50_000 - 3 - 1);
}

#[test]
fn opening_screen_leaves_morale_alone() {
    let mut m = tally(-5_000, 3);
    let verdict = settle_day(&mut m, &CurrentDay { day: 0, player_damaged: 0 }, None);
    assert_eq!(verdict, None);
    assert_eq!(m.current, 50_000);
    assert_eq!(m.change, 0);
}

#[test]
fn start_day_ends_the_session_at_either_extreme() {
    let mut day = CurrentDay { day: 4, player_damaged: 7_000 };
    let over = EnemyMorale { current: 100_000, change: 0, enemies_killed: 0 };
    assert_eq!(start_day(&over, &mut day), GameState::GameOver);
    assert_eq!(day, CurrentDay { day: 4, player_damaged: 7_000 });
    let lost = EnemyMorale { current: 0, change: 0, enemies_killed: 0 };
    assert_eq!(start_day(&lost, &mut day), GameState::GameOver);
    let going = EnemyMorale { current: 40_000, change: 0, enemies_killed: 0 };
    assert_eq!(start_day(&going, &mut day), GameState::ActiveGame);
    assert_eq!(day, CurrentDay { day: 5, player_damaged: 0 });
}

#[test]
fn a_new_session_starts_at_half() {
    let mut m = EnemyMorale { current: 3, change: 0, enemies_killed: 0 };
    let mut day = CurrentDay { day: 9, player_damaged: 0 };
    new_session(&mut m, &mut day);
    assert_eq!(m.current, 50_000);
    assert_eq!(day.day, 0);
}

#[test]
fn outlook_follows_the_percentage() {
    let at = |current| EnemyMorale { current, change: 0, enemies_killed: 0 };
    assert_eq!(morale_outlook(&at(80_000), 0), MoraleOutlook::Opening);
    assert_eq!(morale_outlook(&at(100_000), 2), MoraleOutlook::Finished);
    assert_eq!(morale_outlook(&at(75_000), 2), MoraleOutlook::Emboldened);
    assert_eq!(morale_outlook(&at(25_000), 2), MoraleOutlook::Hopeless);
    assert_eq!(morale_outlook(&at(50_000), 2), MoraleOutlook::Steady);
}

#[test]
fn death_blow_ends_the_day() {
    let mut health = Health { current: 1_000, maximum: 200_000 };
    let mut day = CurrentDay { day: 2, player_damaged: 500 };
    let (hit, ended) = register_player_damage(&mut health, &vec![DamagePlayerEvent(1_000)], &mut day);
    assert!(hit);
    assert_eq!(ended, Some(EndDayEvent { reason: DayEndReason::PlayerDeath }));
    assert_eq!(day.player_damaged, 1_500);
    let (hit, _) = register_player_damage(&mut health, &Vec::new(), &mut day);
    assert!(!hit);
}
