//! Humanity's morale across days: the day's tally, the closing verdict and
//! the clamped update of the percentage.
use vstd::prelude::*;
use crate::common::{AMOUNT_LIMIT, DayEndReason, EndDayEvent, GameState};

verus! {

/// Full morale (one hundred percent, in thousandths).
pub const MORALE_MAX: i64 = 100_000;

/// Morale at the start of a session.
pub const MORALE_START: i64 = 50_000;

/// Bounds that the first day's update clamps to.
pub const FIRST_DAY_LOW: i64 = 15_000;

pub const FIRST_DAY_HIGH: i64 = 85_000;

/// Kills below which the day counts as a poor showing.
pub const KILL_QUOTA: u32 = 40;

/// Damage taken below which the day counts as untouched.
pub const UNTOUCHED_DAMAGE: i64 = 3_000;

/// Humanity's morale: `current` is the percentage, `change` and
/// `enemies_killed` the running tally of the day.
#[derive(Clone, Copy, Debug, PartialEq, Eq, Structural)]
pub struct EnemyMorale {
    pub current: i64,
    pub change: i64,
    pub enemies_killed: u32,
}

impl EnemyMorale {
    pub open spec fn wf(self) -> bool {
        &&& 0 <= self.current <= MORALE_MAX
        &&& -AMOUNT_LIMIT <= self.change <= AMOUNT_LIMIT
    }
}

#[derive(Clone, Copy, Debug, PartialEq, Eq, Structural)]
pub struct CurrentDay {
    pub day: u32,
    /// Damage the player took today.
    pub player_damaged: i64,
}

impl CurrentDay {
    pub open spec fn wf(self) -> bool {
        0 <= self.player_damaged <= AMOUNT_LIMIT
    }
}

/// How a day went, as the closing narration tells it.
#[derive(Clone, Copy, Debug, PartialEq, Eq, Structural)]
pub enum DayVerdict {
    /// Too few enemies fell.
    FewKills,
    /// The player was struck down.
    PlayerFell,
    /// Enough kills, and the player was barely touched: crushing dominance.
    Untouched,
    /// Enough kills, and the player took real damage.
    Wounded,
}

pub open spec fn verdict_of(killed: u32, reason: DayEndReason, damaged: i64) -> DayVerdict {
    if killed < KILL_QUOTA {
        DayVerdict::FewKills
    } else if reason == DayEndReason::PlayerDeath {
        DayVerdict::PlayerFell
    } else if damaged < UNTOUCHED_DAMAGE {
        DayVerdict::Untouched
    } else {
        DayVerdict::Wounded
    }
}

/// The day's morale change once the verdict is applied.
pub open spec fn closing_change(change: int, v: DayVerdict, damaged: int) -> int {
    match v {
        DayVerdict::FewKills => if change - 15_000 <= -15_000 { change - 15_000 } else { -15_000 },
        DayVerdict::PlayerFell => if change + 25_000 >= 10_000 { change + 25_000 } else { 10_000 },
        DayVerdict::Untouched => change - 10_000,
        DayVerdict::Wounded => change + damaged / 10,
    }
}

pub open spec fn clamp(x: int, lo: int, hi: int) -> int {
    if x < lo {
        lo
    } else if x > hi {
        hi
    } else {
        x
    }
}

/// Morale after day `day` closes with a total change of `change`: from the
/// second day on, the change weighs a quarter more with each day.
pub open spec fn settled(current: int, change: int, day: u32) -> int {
    if day == 0 {
        current
    } else if day == 1 {
        clamp(current + change, FIRST_DAY_LOW as int, FIRST_DAY_HIGH as int)
    } else {
        clamp(current + change + (change * (day - 1)) / 4, 0, MORALE_MAX as int)
    }
}

pub open spec fn game_over(m: EnemyMorale) -> bool {
    m.current == 0 || m.current == MORALE_MAX
}

pub fn day_verdict(killed: u32, reason: DayEndReason, damaged: i64) -> (r: DayVerdict)
    ensures
        r == verdict_of(killed, reason, damaged),
{
    if killed < KILL_QUOTA {
        DayVerdict::FewKills
    } else if let DayEndReason::PlayerDeath = reason {
        DayVerdict::PlayerFell
    } else if damaged < UNTOUCHED_DAMAGE {
        DayVerdict::Untouched
    } else {
        DayVerdict::Wounded
    }
}

/// Rounds `x / 4` down.
fn quarter_floor(x: i128) -> (r: i128)
    requires
        -1_000_000_000_000_000_000_000_000_000 <= x <= 1_000_000_000_000_000_000_000_000_000,
    ensures
        r == x / 4,
{
    if x >= 0 {
        x / 4
    } else {
        let q = (3 - x) / 4;
        proof {
            assert(x / 4 == -q) by (nonlinear_arith)
                requires q == (3 - x) / 4, x < 0;
        }
        -q
    }
}

fn clamp_i128(x: i128, lo: i64, hi: i64) -> (r: i64)
    requires
        lo <= hi,
    ensures
        r == clamp(x as int, lo as int, hi as int),
{
    if x < lo as i128 {
        lo
    } else if x > hi as i128 {
        hi
    } else {
        x as i64
    }
}

/// Closes the day: applies the verdict (when the day ended rather than the
/// session just began), folds the day's change into the percentage, and
/// clears the tally.
pub fn settle_day(morale: &mut EnemyMorale, day: &CurrentDay, day_end: Option<EndDayEvent>) -> (r:
    Option<DayVerdict>)
    requires
        old(morale).wf(),
        day.wf(),
    ensures
        final(morale).wf(),
        r == (match day_end {
            Some(e) => Some(verdict_of(old(morale).enemies_killed, e.reason, day.player_damaged)),
            None => None::<DayVerdict>,
        }),
        final(morale).current == settled(
            old(morale).current as int,
            match r {
                Some(v) => closing_change(old(morale).change as int, v, day.player_damaged as int),
                None => old(morale).change as int,
            },
            day.day,
        ),
        final(morale).change == 0,
        final(morale).enemies_killed == 0,
        day.day == 1 ==> FIRST_DAY_LOW <= final(morale).current <= FIRST_DAY_HIGH,
{
    let verdict = match day_end {
        Some(e) => Some(day_verdict(morale.enemies_killed, e.reason, day.player_damaged)),
        None => None,
    };
    let change: i64 = match verdict {
        Some(DayVerdict::FewKills) => {
            if morale.change - 15_000 <= -15_000 {
                morale.change - 15_000
            } else {
                -15_000
            }
        },
        Some(DayVerdict::PlayerFell) => {
            if morale.change + 25_000 >= 10_000 {
                morale.change + 25_000
            } else {
                10_000
            }
        },
        Some(DayVerdict::Untouched) => morale.change - 10_000,
        Some(DayVerdict::Wounded) => morale.change + day.player_damaged / 10,
        None => morale.change,
    };
    if day.day == 1 {
        morale.current = clamp_i128(
            morale.current as i128 + change as i128,
            FIRST_DAY_LOW,
            FIRST_DAY_HIGH,
        );
    } else if day.day > 0 {
        let days_after_first = (day.day - 1) as i128;
        proof {
            assert(-2 * AMOUNT_LIMIT <= change <= 2 * AMOUNT_LIMIT);
            assert(-2 * AMOUNT_LIMIT * 0x1_0000_0000 <= change * days_after_first <= 2
                * AMOUNT_LIMIT * 0x1_0000_0000) by (nonlinear_arith)
                requires
                    -2 * AMOUNT_LIMIT <= change <= 2 * AMOUNT_LIMIT,
                    0 <= days_after_first < 0x1_0000_0000;
        }
        let weighted = change as i128 * days_after_first;
        let extra = quarter_floor(weighted);
        morale.current = clamp_i128(
            morale.current as i128 + change as i128 + extra,
            0,
            MORALE_MAX,
        );
    }
    morale.change = 0;
    morale.enemies_killed = 0;
    verdict
}

/// Every morale update keeps the percentage within zero and one hundred,
/// and the first day's update keeps it within fifteen and eighty-five.
pub proof fn lemma_settled_in_range(current: int, change: int, day: u32)
    requires
        0 <= current <= MORALE_MAX,
    ensures
        0 <= settled(current, change, day) <= MORALE_MAX,
        day == 1 ==> FIRST_DAY_LOW <= settled(current, change, day) <= FIRST_DAY_HIGH,
{
}

/// What the morale screen's button does: a session whose morale reached
/// either end is over; otherwise the next day starts with a fresh damage
/// tally.
pub fn start_day(morale: &EnemyMorale, day: &mut CurrentDay) -> (r: GameState)
    requires
        old(day).day < u32::MAX,
    ensures
        game_over(*morale) ==> r == GameState::GameOver && *final(day) == *old(day),
        !game_over(*morale) ==> r == GameState::ActiveGame && final(day).day == old(day).day + 1
            && final(day).player_damaged == 0,
{
    if morale.current == 0 || morale.current == MORALE_MAX {
        GameState::GameOver
    } else {
        day.player_damaged = 0;
        day.day = day.day + 1;
        GameState::ActiveGame
    }
}

/// Starts a new session: day zero, morale at half.
pub fn new_session(morale: &mut EnemyMorale, day: &mut CurrentDay)
    requires
        old(morale).wf(),
    ensures
        final(morale).current == MORALE_START,
        final(morale).change == old(morale).change,
        final(morale).enemies_killed == old(morale).enemies_killed,
        final(morale).wf(),
        final(day).day == 0,
        final(day).player_damaged == old(day).player_damaged,
{
    day.day = 0;
    morale.current = MORALE_START;
}

/// The tone of the morale screen's closing line.
#[derive(Clone, Copy, Debug, PartialEq, Eq, Structural)]
pub enum MoraleOutlook {
    /// The session has not begun.
    Opening,
    /// Morale reached an end: the session is over.
    Finished,
    /// Humanity grows bold (three quarters or more).
    Emboldened,
    /// Humanity grows hopeless (a quarter or less).
    Hopeless,
    Steady,
}

pub open spec fn outlook_of(m: EnemyMorale, day: u32) -> MoraleOutlook {
    if day == 0 {
        MoraleOutlook::Opening
    } else if game_over(m) {
        MoraleOutlook::Finished
    } else if m.current >= 75_000 {
        MoraleOutlook::Emboldened
    } else if m.current <= 25_000 {
        MoraleOutlook::Hopeless
    } else {
        MoraleOutlook::Steady
    }
}

pub fn morale_outlook(morale: &EnemyMorale, day: u32) -> (r: MoraleOutlook)
    ensures
        r == outlook_of(*morale, day),
{
    if day == 0 {
        MoraleOutlook::Opening
    } else if morale.current == 0 || morale.current == MORALE_MAX {
        MoraleOutlook::Finished
    } else if morale.current >= 75_000 {
        MoraleOutlook::Emboldened
    } else if morale.current <= 25_000 {
        MoraleOutlook::Hopeless
    } else {
        MoraleOutlook::Steady
    }
}

} // verus!
