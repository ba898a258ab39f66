use app_blocker::time::{format_duration, format_hhmm, parse_hhmm, Block};

fn b(s: &str, e: &str) -> Block {
    Block::new(parse_hhmm(s, false).unwrap(), parse_hhmm(e, true).unwrap()).unwrap()
}

#[test]
fn parses_times() {
    assert_eq!(parse_hhmm("07:05", false), Ok(425));
    assert_eq!(parse_hhmm("24:00", true), Ok(1440));
    assert!(parse_hhmm("24:00", false).is_err());
    assert!(parse_hhmm("25:00", true).is_err(), "invalid time is rejected");
    assert!(parse_hhmm("12:60", false).is_err());
    assert!(parse_hhmm("1200", false).is_err());
    assert_eq!(format_hhmm(1440), "24:00");
}

#[test]
fn equal_start_and_end_is_rejected() {
    assert!(Block::new(480, 480).is_err());
}

#[test]
fn midnight_end_is_normalised() {
    assert_eq!(Block::new(1380, 0).unwrap(), Block { start: 1380, end: 1440 });
    assert!(!b("23:00", "00:00").is_overnight());
}

#[test]
fn circular_overlap() {
    assert!(b("09:00", "10:00").overlaps(&b("09:30", "11:00")));
    assert!(!b("09:00", "10:00").overlaps(&b("10:00", "11:00")));
    assert!(b("22:00", "02:00").overlaps(&b("01:00", "03:00")));
    assert!(!b("22:00", "02:00").overlaps(&b("02:00", "03:00")));
    assert!(b("00:00", "24:00").overlaps(&b("12:00", "13:00")));
}

#[test]
fn start_len_wraps() {
    assert_eq!(Block::from_start_len(1380, 120), b("23:00", "01:00"));
    assert_eq!(Block::from_start_len(1380, 60), b("23:00", "24:00"));
    assert_eq!(Block::from_start_len(0, 5000), b("00:00", "24:00"));
    assert_eq!(Block::from_start_len(60, 5000).minutes(), 1439);
}

#[test]
fn time_errors_name_the_value() {
    assert_eq!(
        parse_hhmm(" 7:5 ", false),
        Err("Invalid time ' 7:5 '. Use 24-hour HH:MM format.".to_string())
    );
    assert_eq!(parse_hhmm(" 07:30 ", false), Ok(450));
    assert_eq!(parse_hhmm("+7:30", false), Ok(450));
}

#[test]
fn block_errors() {
    assert_eq!(Block::new(1440, 60), Err("Times must be between 00:00 and 24:00.".to_string()));
    assert_eq!(Block::new(60, 1441), Err("Times must be between 00:00 and 24:00.".to_string()));
    assert_eq!(Block::new(60, 60), Err("A block's start and end times must be different.".to_string()));
}

#[test]
fn durations_and_labels() {
    assert_eq!(format_duration(0), "0m");
    assert_eq!(format_duration(59), "59m");
    assert_eq!(format_duration(60), "1h");
    assert_eq!(format_duration(125), "2h 5m");
    assert_eq!(format_hhmm(0), "00:00");
    assert_eq!(format_hhmm(425), "07:05");
    assert_eq!(b("23:00", "07:00").label(), "23:00 – 07:00");
    assert_eq!(b("23:00", "07:00").minutes(), 480);
    assert_eq!(b("23:00", "07:00").end_abs(), 1860);
    assert!(b("23:00", "07:00").is_overnight());
}

#[test]
fn coverage_by_day() {
    let night = b("23:00", "07:00");
    assert!(night.covers_same_day(1380));
    assert!(!night.covers_same_day(1379));
    assert!(night.covers_next_day(0));
    assert!(night.covers_next_day(419));
    assert!(!night.covers_next_day(420));
    let day = b("09:00", "17:00");
    assert!(day.covers_same_day(540) && day.covers_same_day(1019) && !day.covers_same_day(1020));
    assert!(!day.covers_next_day(600));
}

#[test]
fn overlap_is_symmetric_on_examples() {
    let pairs = [("09:00", "10:00", "09:30", "11:00"), ("22:00", "02:00", "01:00", "03:00"), ("22:00", "02:00", "02:00", "03:00")];
    for (a, b_, c, d) in pairs {
        assert_eq!(b(a, b_).overlaps(&b(c, d)), b(c, d).overlaps(&b(a, b_)));
    }
}

#[test]
fn text_round_trips() {
    for minute in [0u16, 1, 59, 60, 425, 1439] {
        assert_eq!(parse_hhmm(&format_hhmm(minute), false), Ok(minute));
    }
    assert_eq!(parse_hhmm(&format_hhmm(1440), true), Ok(1440));
}

#[test]
fn covered_minutes_add_up_to_the_length() {
    for (start, end) in [(1380u16, 420u16), (540, 1020), (0, 1440), (1439, 1), (600, 1440)] {
        let b = Block::new(start, end).unwrap();
        let same = (0..1440u16).filter(|m| b.covers_same_day(*m)).count();
        let next = (0..1440u16).filter(|m| b.covers_next_day(*m)).count();
        assert_eq!(same + next, b.minutes() as usize, "{start}-{end}");
    }
}
