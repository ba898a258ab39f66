use app_blocker::config::Config;
use app_blocker::logger::{echo_line, log_key, log_line, needs_rotation, rotated_name, rotation_plan, Logger, RecentMessages};
use app_blocker::monitor::{
    check_interval, decide_round, denied_message, gives_up, is_target, list_failed_message, notify_report,
    owned_by_target, parse_options, should_inspect, stop_action, stop_failed_message, stopped_message,
    would_stop_message, ProcessInfo, Round, StopAction,
};
use app_blocker::schedule::Moment;
use chrono::{Datelike, NaiveDateTime, Timelike};

fn at(text: &str) -> Moment {
    let t = NaiveDateTime::parse_from_str(text, "%Y-%m-%d %H:%M:%S").unwrap();
    Moment { day: t.date().num_days_from_ce(), second: t.num_seconds_from_midnight(), nano: t.nanosecond() }
}

fn strings(args: &[&str]) -> Vec<String> {
    args.iter().map(|a| a.to_string()).collect()
}

#[test]
fn monitor_options() {
    let o = parse_options(&strings(&["--once", "--config", r"C:\c.json", "--config", "other"]));
    assert!(o.once && !o.dry_run);
    assert_eq!(o.config_path, Some(r"C:\c.json".to_string()));
    let o = parse_options(&strings(&["--dry-run", "--config"]));
    assert!(!o.once && o.dry_run);
    assert_eq!(o.config_path, None);
}

#[test]
fn rounds_enforce_or_announce() {
    let mut c = Config::default();
    c.executables = vec![r"C:\Games\game.exe".into()];
    c.preferences.notify_before_block = true;
    assert!(matches!(decide_round(&c, &at("2026-01-01 23:30:00"), None), Round::Enforce));
    match decide_round(&c, &at("2026-01-01 22:55:00"), None) {
        Round::Notify { start, title, .. } => {
            assert_eq!(start, at("2026-01-01 23:00:00"));
            assert_eq!(title, "Blocking starts in 5 minutes");
        }
        _ => panic!("a heads-up is due"),
    }
    assert!(matches!(decide_round(&c, &at("2026-01-01 12:00:00"), None), Round::Idle));
    assert_eq!(check_interval(None), 5);
    c.check_interval_seconds = 0;
    assert_eq!(check_interval(Some(&c)), 1);
    c.check_interval_seconds = 600;
    assert_eq!(check_interval(Some(&c)), 60);
    c.check_interval_seconds = 7;
    assert_eq!(check_interval(Some(&c)), 7);
    assert!(gives_up(true, false));
    assert!(!gives_up(true, true));
    assert!(!gives_up(false, false));
}

#[test]
fn which_processes_close() {
    let mut c = Config::default();
    c.target_user_sid = "S-1-5-21-1-2-3-1001".into();
    c.executables = vec![r"C:\Games\game.exe".into()];
    assert!(!should_inspect(&ProcessInfo { pid: 4, name: "System".into() }, 900));
    assert!(!should_inspect(&ProcessInfo { pid: 900, name: "me".into() }, 900));
    assert!(should_inspect(&ProcessInfo { pid: 901, name: "game.exe".into() }, 900));
    assert!(owned_by_target(&c, Some("s-1-5-21-1-2-3-1001")));
    assert!(!owned_by_target(&c, None));
    assert!(is_target(&c, Some(r"c:\games\GAME.exe"), Some("S-1-5-21-1-2-3-1001")));
    assert!(!is_target(&c, Some(r"c:\games\GAME.exe"), Some("S-1-5-18")));
    assert!(!is_target(&c, Some(r"c:\games\other.exe"), Some("S-1-5-21-1-2-3-1001")));
    assert!(matches!(stop_action(true, true), StopAction::Report));
    assert!(matches!(stop_action(false, false), StopAction::Denied));
    assert!(matches!(stop_action(false, true), StopAction::Terminate));
    assert_eq!(would_stop_message("game.exe", 42), "Would stop game.exe (PID 42)");
    assert_eq!(stopped_message("game.exe", 42), "Stopped game.exe (PID 42)");
    assert_eq!(denied_message("game.exe", 42), "Could not stop game.exe (PID 42): access denied");
    assert_eq!(stop_failed_message("game.exe", 42, "gone"), "Could not stop game.exe (PID 42): gone");
    assert_eq!(list_failed_message("no access"), "Could not list running processes: no access");
    let r = notify_report(true, &Ok(()), "Soon");
    assert!(!r.error && r.message == "Would notify: Soon");
    let r = notify_report(false, &Err("no session".into()), "Soon");
    assert!(r.error && r.message == "Could not show the notification: no session");
    let r = notify_report(false, &Ok(()), "Soon");
    assert!(!r.error && r.message == "Notified: Soon");
}

#[test]
fn repeated_messages_wait_five_minutes() {
    let mut recent = RecentMessages::new();
    assert!(recent.should_write("INFO|a", 1_000));
    assert!(!recent.should_write("INFO|a", 1_000 + 299_999));
    assert!(recent.should_write("INFO|b", 2_000), "another message is not held back");
    assert!(recent.should_write("INFO|a", 1_000 + 300_000));
    let mut log = Logger::new(r"C:\log.txt".into(), true);
    assert_eq!(log.path(), r"C:\log.txt");
    assert!(log.echo());
    assert!(log.info("started", 0));
    assert!(!log.info("started", 10));
    assert!(log.error("started", 10), "the level is part of what repeats");
    assert!(log.write("WARN", "x", 10));
    assert!(log.info("started", 300_000));
}

#[test]
fn log_texts_and_rotation() {
    assert_eq!(log_key("INFO", "a|b"), "INFO|a|b");
    assert_eq!(log_line("2026-01-01 10:00:00", "INFO", "hi"), "2026-01-01 10:00:00 [INFO] hi\n");
    assert_eq!(echo_line("ERROR", "oops"), "[ERROR] oops");
    assert!(!needs_rotation(None));
    assert!(!needs_rotation(Some(1_048_576)));
    assert!(needs_rotation(Some(1_048_577)));
    assert_eq!(rotated_name("w.log", 2), "w.log.2");
    let plan = rotation_plan("w.log");
    assert_eq!(plan, vec![
        ("w.log.2".to_string(), "w.log.3".to_string()),
        ("w.log.1".to_string(), "w.log.2".to_string()),
        ("w.log".to_string(), "w.log.1".to_string()),
    ]);
}
