use app_blocker::config::{Config, DaySchedule, Policy, ScheduleMode, Track};
use app_blocker::policy::can_use;
use app_blocker::schedule::{is_blocked, next_change, Moment};
use app_blocker::time::{parse_hhmm, Block};
use chrono::{Datelike, NaiveDateTime, Timelike};

fn moment_of(t: NaiveDateTime) -> Moment {
    Moment { day: t.date().num_days_from_ce(), second: t.num_seconds_from_midnight(), nano: t.nanosecond() }
}

fn at(text: &str) -> Moment {
    moment_of(NaiveDateTime::parse_from_str(text, "%Y-%m-%d %H:%M:%S").unwrap())
}

fn at_minute(text: &str) -> Moment {
    moment_of(NaiveDateTime::parse_from_str(text, "%Y-%m-%d %H:%M").unwrap())
}

fn day(enabled: bool, ranges: &[(&str, &str)]) -> DaySchedule {
    DaySchedule {
        enabled,
        blocks: ranges
            .iter()
            .map(|(s, e)| Block::new(parse_hhmm(s, false).unwrap(), parse_hhmm(e, true).unwrap()).unwrap())
            .collect(),
    }
}

fn every_day(start: &str, end: &str) -> Config {
    let mut c = Config::default();
    c.days.every_day = day(true, &[(start, end)]);
    c
}

fn split(weekday_enabled: bool, weekend_enabled: bool) -> Config {
    let mut c = Config { schedule_mode: ScheduleMode::WeekdayWeekend, ..Config::default() };
    c.days.weekday = day(weekday_enabled, &[("22:00", "06:00")]);
    c.days.weekend = day(weekend_enabled, &[("12:00", "14:00")]);
    c
}

#[test]
fn overnight_and_same_day_edges() {
    let night = every_day("23:00", "07:00");
    assert!(!is_blocked(&night, &at("2026-01-01 22:59:59")), "before overnight block");
    assert!(is_blocked(&night, &at("2026-01-01 23:00:00")), "overnight start is inclusive");
    assert!(is_blocked(&night, &at("2026-01-02 00:00:00")), "blocked across midnight");
    assert!(is_blocked(&night, &at("2026-01-02 06:59:59")), "just before overnight end");
    assert!(!is_blocked(&night, &at("2026-01-02 07:00:00")), "overnight end is exclusive");
    let work = every_day("09:00", "17:00");
    assert!(is_blocked(&work, &at("2026-01-01 12:30:00")), "same-day blocked interval");
    assert!(!is_blocked(&work, &at("2026-01-01 18:00:00")), "after same-day interval");
    assert!(is_blocked(&every_day("23:00", "07:00"), &at("2026-01-10 03:00:00")));
}

#[test]
fn weekday_weekend() {
    let c = split(true, true);
    assert!(is_blocked(&c, &at("2026-01-09 23:30:00")), "Friday uses weekday start");
    assert!(is_blocked(&c, &at("2026-01-10 05:30:00")), "Saturday morning finishes Friday overnight");
    assert!(!is_blocked(&c, &at("2026-01-10 06:30:00")), "Friday overnight end is respected on Saturday");
    assert!(is_blocked(&c, &at("2026-01-10 12:30:00")), "Saturday same-day weekend schedule applies");
    assert!(is_blocked(&c, &at("2026-01-11 13:59:59")), "Sunday uses weekend schedule");
    assert!(!is_blocked(&c, &at("2026-01-12 09:00:00")), "Monday does not inherit a same-day Sunday block");

    let no_weekend = split(true, false);
    assert!(is_blocked(&no_weekend, &at("2026-01-10 05:30:00")), "disabled weekend still finishes Friday overnight");
    assert!(!is_blocked(&no_weekend, &at("2026-01-10 12:30:00")), "disabled weekend starts no block");

    let no_weekdays = split(false, true);
    assert!(!is_blocked(&no_weekdays, &at("2026-01-09 23:30:00")), "disabled weekdays start no block");
    assert!(is_blocked(&no_weekdays, &at("2026-01-10 12:30:00")), "enabled weekend still applies");
}

#[test]
fn individual_days() {
    let mut c = Config { schedule_mode: ScheduleMode::IndividualDays, ..Config::default() };
    c.days.monday = day(true, &[("10:00", "11:00")]);
    c.days.tuesday = day(true, &[("12:00", "13:00")]);
    c.days.wednesday = day(false, &[("14:00", "15:00")]);
    c.days.thursday = day(true, &[("16:00", "17:00")]);
    c.days.friday = day(true, &[("22:00", "06:00")]);
    c.days.saturday = day(false, &[("12:00", "13:00")]);
    c.days.sunday = day(true, &[("18:00", "19:00")]);
    assert!(!is_blocked(&c, &at("2026-01-07 14:30:00")), "disabled Wednesday starts no block");
    assert!(!is_blocked(&c, &at("2026-01-07 12:30:00")), "Tuesday hours do not apply on Wednesday");
    assert!(is_blocked(&c, &at("2026-01-10 05:30:00")), "Friday overnight finishes Saturday");
    assert!(!is_blocked(&c, &at("2026-01-10 06:30:00")), "overnight end is respected");
    assert!(!is_blocked(&c, &at("2026-01-10 12:30:00")), "disabled Saturday starts no block");
    assert!(is_blocked(&c, &at("2026-01-11 18:00:00")), "Sunday block applies");
}

#[test]
fn several_blocks_per_day() {
    let mut c = Config::default();
    c.days.every_day = day(true, &[("09:00", "12:00"), ("14:00", "17:30"), ("22:00", "24:00")]);
    assert!(is_blocked(&c, &at("2026-01-05 10:00:00")));
    assert!(!is_blocked(&c, &at("2026-01-05 13:00:00")));
    assert!(is_blocked(&c, &at("2026-01-05 17:29:00")));
    assert!(!is_blocked(&c, &at("2026-01-05 17:30:00")));
    assert!(is_blocked(&c, &at("2026-01-05 23:59:59")), "24:00 end covers the last minute");
    assert!(!is_blocked(&c, &at("2026-01-06 00:00:00")), "24:00 end does not carry over");
}

#[test]
fn empty_schedule_never_blocks() {
    let mut c = Config::default();
    c.days.every_day.blocks.clear();
    assert!(!is_blocked(&c, &at("2026-01-05 10:00:00")));
    assert_eq!(next_change(&c, &at("2026-01-05 10:00:00")), None);
}

#[test]
fn finds_next_change() {
    let c = every_day("23:00", "07:00");
    assert_eq!(next_change(&c, &at("2026-01-05 20:15:42")), Some(at("2026-01-05 23:00:00")));
    assert_eq!(next_change(&c, &at("2026-01-05 23:30:00")), Some(at("2026-01-06 07:00:00")));
}

#[test]
fn policies_follow_the_schedule() {
    let config = Config::default(); // 23:00–07:00 every day
    let blocked = at_minute("2026-01-05 23:30");
    let allowed = at_minute("2026-01-05 12:00");
    assert!(can_use(Policy::Always, &config, &blocked));
    assert!(!can_use(Policy::Never, &config, &allowed));
    assert!(can_use(Policy::AllowedHoursOnly, &config, &allowed));
    assert!(!can_use(Policy::AllowedHoursOnly, &config, &blocked));
}

#[test]
fn weekdays_match_the_calendar() {
    for (text, monday_based) in [("2026-01-05 10:00:00", 0u32), ("2026-01-10 10:00:00", 5), ("2026-01-11 10:00:00", 6), ("0001-01-01 00:00:00", 0)] {
        let m = at(text);
        assert_eq!(m.weekday_index(), monday_based);
        let t = NaiveDateTime::parse_from_str(text, "%Y-%m-%d %H:%M:%S").unwrap();
        assert_eq!(m.weekday_index(), t.weekday().num_days_from_monday());
    }
    assert_eq!(at("2026-01-05 10:07:59").minute_of_day(), 607);
}

#[test]
fn next_change_is_on_a_whole_minute_and_flips_the_state() {
    let c = every_day("09:00", "17:00");
    for text in ["2026-01-05 08:59:30", "2026-01-05 12:00:01", "2026-01-05 16:59:59", "2026-01-05 17:00:00"] {
        let from = at(text);
        let next = next_change(&c, &from).unwrap();
        assert_eq!(next.second % 60, 0);
        assert_eq!(next.nano, 0);
        assert_ne!(is_blocked(&c, &next), is_blocked(&c, &from));
    }
    assert_eq!(next_change(&c, &at("2026-01-05 16:59:59")), Some(at("2026-01-05 17:00:00")));
    assert_eq!(next_change(&c, &at("2026-01-05 17:00:00")), Some(at("2026-01-06 09:00:00")));
}

#[test]
fn yesterday_overnight_block_carries_into_today() {
    let mut c = Config { schedule_mode: ScheduleMode::IndividualDays, ..Config::default() };
    for t in Track::lanes(ScheduleMode::IndividualDays) {
        c.days.get_mut(t).blocks.clear();
    }
    c.days.sunday = day(true, &[("23:00", "02:00")]);
    c.days.monday = day(false, &[]);
    assert!(is_blocked(&c, &at("2026-01-12 01:00:00")), "Sunday's block finishes on a Monday that is off");
    assert!(!is_blocked(&c, &at("2026-01-12 02:00:00")));
}
