//! Decides whether blocking is active at a given moment.
//!
//! A block belongs to the day it starts on. Blocks that run past midnight finish on the next day
//! even when that day is turned off; a turned-off day only stops new blocks from starting.
use crate::config::{track_for_day, Config, DaysView, ScheduleMode, Track};
use vstd::prelude::*;

verus! {

/// Day number of the last day the calendar reaches (31 December 262142).
pub const LAST_DAY: i32 = 95745399;

/// Day number of the first day the calendar reaches (1 January -262143).
pub const FIRST_DAY: i32 = -95746129;

/// A moment as the local clock shows it: the day (1 January of year 1 of the proleptic Gregorian
/// calendar is day 1), the second of that day, and the nanosecond within the second.
///
/// The clock never reports a leap second, so `nano` stays below one second.
#[derive(Clone, Copy, Debug, PartialEq, Eq, Structural, Hash)]
pub struct Moment {
    pub day: i32,
    pub second: u32,
    pub nano: u32,
}

impl Moment {
    pub open spec fn wf(self) -> bool {
        FIRST_DAY <= self.day <= LAST_DAY && self.second < 86400 && self.nano < 1_000_000_000
    }

    /// Monday = 0 … Sunday = 6. Day 1 was a Monday.
    pub open spec fn weekday(self) -> int {
        (self.day + 6) % 7
    }

    /// Minute of the day, `0..1440`.
    pub open spec fn minute(self) -> int {
        (self.second / 60) as int
    }

    /// Seconds since the start of day 0.
    pub open spec fn seconds(self) -> int {
        self.day * 86400 + self.second
    }

    /// The moment `minutes` whole minutes after the start of `self`'s minute.
    pub open spec fn minute_start_plus(self, minutes: int) -> Moment {
        let total = (self.second / 60) * 60 + 60 * minutes;
        Moment { day: (self.day + total / 86400) as i32, second: (total % 86400) as u32, nano: 0 }
    }

    /// Monday = 0 … Sunday = 6.
    pub fn weekday_index(&self) -> (r: u32)
        ensures
            r == self.weekday(),
            r < 7,
    {
        let shifted: u64 = (self.day as i64 + 6 + 2_800_000_000) as u64;
        assert((self.day + 6 + 2_800_000_000) % 7 == (self.day + 6) % 7);
        (shifted % 7) as u32
    }

    /// The minute of the day.
    pub fn minute_of_day(&self) -> (r: u16)
        requires
            self.wf(),
        ensures
            r == self.minute(),
            r < 1440,
    {
        (self.second / 60) as u16
    }

    /// The moment `minutes` whole minutes after the start of this moment's minute.
    pub fn plus_minutes_from_minute_start(&self, minutes: u32) -> (r: Moment)
        requires
            self.wf(),
            minutes <= 8 * 1440,
            self.day + 9 <= LAST_DAY,
        ensures
            r == self.minute_start_plus(minutes as int),
            r.wf(),
    {
        let total: u64 = (self.second / 60) as u64 * 60 + 60 * minutes as u64;
        Moment {
            day: (self.day as i64 + (total / 86400) as i64) as i32,
            second: (total % 86400) as u32,
            nano: 0,
        }
    }
}

/// Whether blocking is active at minute `minute` of a day with weekday `weekday` (Monday = 0):
/// a block of that day's lane, if the lane is on, covers the minute, or an overnight block of the
/// previous day's lane, if that lane is on, still runs.
pub open spec fn blocked_at(mode: ScheduleMode, days: DaysView, weekday: int, minute: int) -> bool {
    let today = track_for_day(mode, weekday as u32);
    let yesterday = track_for_day(mode, ((weekday + 6) % 7) as u32);
    ||| days.is_enabled(today) && exists|i: int|
        0 <= i < days.get(today).blocks.len() && (#[trigger] days.get(
            today,
        ).blocks[i]).spec_covers_same_day(minute)
    ||| days.is_enabled(yesterday) && exists|i: int|
        0 <= i < days.get(yesterday).blocks.len() && (#[trigger] days.get(
            yesterday,
        ).blocks[i]).spec_covers_next_day(minute)
}

pub open spec fn is_blocked_spec(config: crate::config::ConfigView, at: Moment) -> bool {
    blocked_at(config.schedule_mode, config.days, at.weekday(), at.minute())
}

fn any_covers_same_day(blocks: &Vec<crate::time::Block>, minute: u16) -> (r: bool)
    ensures
        r == exists|i: int| 0 <= i < blocks@.len() && (#[trigger] blocks@[i]).spec_covers_same_day(minute as int),
{
    for i in 0..blocks.len()
        invariant
            forall|j: int| 0 <= j < i ==> !(#[trigger] blocks@[j]).spec_covers_same_day(minute as int),
    {
        if blocks[i].covers_same_day(minute) {
            return true;
        }
    }
    false
}

fn any_covers_next_day(blocks: &Vec<crate::time::Block>, minute: u16) -> (r: bool)
    ensures
        r == exists|i: int| 0 <= i < blocks@.len() && (#[trigger] blocks@[i]).spec_covers_next_day(minute as int),
{
    for i in 0..blocks.len()
        invariant
            forall|j: int| 0 <= j < i ==> !(#[trigger] blocks@[j]).spec_covers_next_day(minute as int),
    {
        if blocks[i].covers_next_day(minute) {
            return true;
        }
    }
    false
}

/// Whether blocking is active at `at`.
pub fn is_blocked(config: &Config, at: &Moment) -> (r: bool)
    requires
        at.wf(),
    ensures
        r == is_blocked_spec(config@, *at),
{
    let minute = at.minute_of_day();
    let mode = config.schedule_mode;
    let weekday = at.weekday_index();
    let today = Track::for_day(mode, weekday);
    let yesterday = Track::for_day(mode, (weekday + 6) % 7);
    let days = &config.days;
    let td = days.get(today);
    let yd = days.get(yesterday);
    let a = days.is_enabled(today) && any_covers_same_day(&td.blocks, minute);
    let b = days.is_enabled(yesterday) && any_covers_next_day(&yd.blocks, minute);
    proof {
        let v = config@.days;
        assert(td.blocks@ == v.get(today).blocks);
        assert(yd.blocks@ == v.get(yesterday).blocks);
        assert(today == track_for_day(mode, at.weekday() as u32));
        assert(yesterday == track_for_day(mode, ((at.weekday() + 6) % 7) as u32));
    }
    a || b
}

/// A block that runs past midnight finishes on the next day whatever that day's switch says.
pub proof fn lemma_carry_over_applies(mode: ScheduleMode, days: DaysView, weekday: int, minute: int, i: int)
    requires
        days.is_enabled(track_for_day(mode, ((weekday + 6) % 7) as u32)),
        0 <= i < days.get(track_for_day(mode, ((weekday + 6) % 7) as u32)).blocks.len(),
        days.get(track_for_day(mode, ((weekday + 6) % 7) as u32)).blocks[i].spec_covers_next_day(minute),
    ensures
        blocked_at(mode, days, weekday, minute),
{
}

/// A day that is turned off starts no block: what blocks on it is carried over from the day
/// before.
pub proof fn lemma_off_day_starts_nothing(mode: ScheduleMode, days: DaysView, weekday: int, minute: int)
    requires
        !days.is_enabled(track_for_day(mode, weekday as u32)),
        blocked_at(mode, days, weekday, minute),
    ensures
        days.is_enabled(track_for_day(mode, ((weekday + 6) % 7) as u32)),
        exists|i: int|
            0 <= i < days.get(track_for_day(mode, ((weekday + 6) % 7) as u32)).blocks.len() && (
            #[trigger] days.get(track_for_day(mode, ((weekday + 6) % 7) as u32)).blocks[i]).spec_covers_next_day(
                minute,
            ),
{
}

/// A lane that is turned off starts no block, not even one that would run past midnight: when
/// neither the lane a moment's day uses nor the lane of the day before is on, nothing is blocked
/// then, whatever blocks those lanes hold.
pub proof fn lemma_turned_off_lanes_block_nothing(config: crate::config::ConfigView, at: Moment)
    requires
        !config.days.is_enabled(track_for_day(config.schedule_mode, at.weekday() as u32)),
        !config.days.is_enabled(track_for_day(config.schedule_mode, ((at.weekday() + 6) % 7) as u32)),
    ensures
        !is_blocked_spec(config, at),
{
}

/// Turning a lane off or on changes nothing on days that neither use it nor follow a day that
/// does: only the lanes of the day and of the day before decide.
pub proof fn lemma_other_lanes_do_not_matter(
    mode: ScheduleMode,
    days: DaysView,
    other: DaysView,
    weekday: int,
    minute: int,
)
    requires
        days.get(track_for_day(mode, weekday as u32)) == other.get(track_for_day(mode, weekday as u32)),
        days.get(track_for_day(mode, ((weekday + 6) % 7) as u32)) == other.get(
            track_for_day(mode, ((weekday + 6) % 7) as u32),
        ),
    ensures
        blocked_at(mode, days, weekday, minute) == blocked_at(mode, other, weekday, minute),
{
}

/// How far ahead `next_change` looks, in minutes: eight days.
pub open spec fn look_ahead() -> int {
    8 * 1440int
}

/// The state changes `m` minutes after the start of `from`'s minute, and at no earlier whole
/// minute.
pub open spec fn first_change_after(config: crate::config::ConfigView, from: Moment, m: int) -> bool {
    &&& 1 <= m <= look_ahead()
    &&& is_blocked_spec(config, from.minute_start_plus(m)) != is_blocked_spec(config, from)
    &&& forall|k: int|
        1 <= k < m ==> #[trigger] is_blocked_spec(config, from.minute_start_plus(k))
            == is_blocked_spec(config, from)
}

/// The first whole minute, up to eight days ahead, at which the blocked/allowed state differs
/// from the state at `from`.
pub open spec fn first_change(config: crate::config::ConfigView, from: Moment) -> Option<Moment> {
    if exists|m: int| first_change_after(config, from, m) {
        Some(from.minute_start_plus(choose|m: int| first_change_after(config, from, m)))
    } else {
        None
    }
}

pub proof fn lemma_first_change_unique(
    config: crate::config::ConfigView,
    from: Moment,
    m1: int,
    m2: int,
)
    requires
        first_change_after(config, from, m1),
        first_change_after(config, from, m2),
    ensures
        m1 == m2,
{
    if m1 < m2 {
        assert(is_blocked_spec(config, from.minute_start_plus(m1)) == is_blocked_spec(config, from));
    }
    if m2 < m1 {
        assert(is_blocked_spec(config, from.minute_start_plus(m2)) == is_blocked_spec(config, from));
    }
}

/// The next minute at which the blocked/allowed state changes, looking up to eight days ahead.
pub fn next_change(config: &Config, from: &Moment) -> (r: Option<Moment>)
    requires
        from.wf(),
        from.day + 9 <= LAST_DAY,
    ensures
        r == first_change(config@, *from),
        match r {
            Some(t) => exists|m: int|
                1 <= m <= look_ahead() && t == from.minute_start_plus(m) && is_blocked_spec(config@, t)
                    != is_blocked_spec(config@, *from) && forall|k: int|
                    1 <= k < m ==> #[trigger] is_blocked_spec(config@, from.minute_start_plus(k))
                        == is_blocked_spec(config@, *from),
            None => forall|k: int|
                1 <= k <= look_ahead() ==> #[trigger] is_blocked_spec(config@, from.minute_start_plus(k))
                    == is_blocked_spec(config@, *from),
        },
{
    let current = is_blocked(config, from);
    let mut m: u32 = 1;
    while m <= 8 * 1440
        invariant
            1 <= m <= 8 * 1440 + 1,
            from.wf(),
            from.day + 9 <= LAST_DAY,
            current == is_blocked_spec(config@, *from),
            forall|k: int|
                1 <= k < m ==> #[trigger] is_blocked_spec(config@, from.minute_start_plus(k))
                    == current,
        decreases 8 * 1440 + 1 - m,
    {
        let t = from.plus_minutes_from_minute_start(m);
        if is_blocked(config, &t) != current {
            proof {
                assert(first_change_after(config@, *from, m as int));
                let c = choose|k: int| first_change_after(config@, *from, k);
                lemma_first_change_unique(config@, *from, m as int, c);
            }
            return Some(t);
        }
        m = m + 1;
    }
    proof {
        assert forall|k: int| !first_change_after(config@, *from, k) by {
            if 1 <= k <= look_ahead() {
                assert(is_blocked_spec(config@, from.minute_start_plus(k)) == current);
            }
        }
    }
    None
}

} // verus!
