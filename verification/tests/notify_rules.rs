use app_blocker::config::Config;
use app_blocker::notify::{
    base64, double_single_quotes, due, encoded_args, fallback_failed_message, powershell_arguments, test_failed_message,
    test_notification, toast_script, utf16_le_bytes, xml_escape,
};
use app_blocker::schedule::Moment;
use app_blocker::time::Block;
use chrono::{Datelike, NaiveDateTime, Timelike};

fn at(text: &str) -> Moment {
    let t = NaiveDateTime::parse_from_str(text, "%Y-%m-%d %H:%M:%S").unwrap();
    Moment { day: t.date().num_days_from_ce(), second: t.num_seconds_from_midnight(), nano: t.nanosecond() }
}

#[test]
fn encodes_base64() {
    assert_eq!(base64(b""), "");
    assert_eq!(base64(b"f"), "Zg==");
    assert_eq!(base64(b"fo"), "Zm8=");
    assert_eq!(base64(b"foo"), "Zm9v");
    assert_eq!(base64(b"foobar"), "Zm9vYmFy");
}

#[test]
fn notifies_once_inside_the_window() {
    let mut c = Config::default();
    c.days.every_day.blocks = vec![Block::new(23 * 60, 7 * 60).unwrap()];
    c.executables = vec![r"C:\Games\game.exe".into()];
    c.preferences.notify_minutes = 10;
    assert!(due(&c, &at("2026-01-01 22:49:00"), None).is_none(), "off by default");
    c.preferences.notify_before_block = true;
    assert!(due(&c, &at("2026-01-01 22:49:00"), None).is_none(), "too early");
    let (start, title, _) = due(&c, &at("2026-01-01 22:50:30"), None).expect("inside the window");
    assert_eq!(start, at("2026-01-01 23:00:00"));
    assert_eq!(title, "Blocking starts in 10 minutes");
    assert!(due(&c, &at("2026-01-01 22:55:00"), Some(start)).is_none(), "only once per block");
    assert!(due(&c, &at("2026-01-01 23:30:00"), None).is_none(), "already blocking");
}

#[test]
fn heads_up_texts() {
    let mut c = Config::default();
    c.days.every_day.blocks = vec![Block::new(23 * 60, 7 * 60).unwrap()];
    c.executables = vec![r"C:\Games\game.exe".into()];
    c.preferences.notify_before_block = true;
    c.preferences.notify_minutes = 10;
    let (_, title, message) = due(&c, &at("2026-01-01 22:59:01"), None).unwrap();
    assert_eq!(title, "Blocking starts in 1 minute");
    assert_eq!(message, "Your blocked apps will be closed at 23:00. Save your work.");
    let (_, title, _) = due(&c, &at("2026-01-01 22:58:59"), None).unwrap();
    assert_eq!(title, "Blocking starts in 2 minutes");
    c.executables.clear();
    assert!(due(&c, &at("2026-01-01 22:55:00"), None).is_none(), "nothing to block, nothing to announce");
}

#[test]
fn script_texts_are_escaped() {
    assert_eq!(xml_escape(r#"a&b<c>"d'"#), "a&amp;b&lt;c&gt;&quot;d&apos;");
    assert_eq!(double_single_quotes("it's"), "it''s");
    let script = toast_script("Tom & Jerry", "it's <now>");
    assert!(script.contains("<text>Tom &amp; Jerry</text><text>it&apos;s &lt;now&gt;</text>"));
    assert!(script.starts_with("$ErrorActionPreference = 'Stop'\n"));
    assert!(script.contains("CreateToastNotifier('WindowsAppBlocker')"));
}

#[test]
fn command_lines() {
    assert_eq!(utf16_le_bytes("A€"), vec![0x41, 0x00, 0xAC, 0x20]);
    assert_eq!(utf16_le_bytes("😀"), vec![0x3D, 0xD8, 0x00, 0xDE]);
    assert_eq!(
        encoded_args("A"),
        "-NoProfile -NonInteractive -WindowStyle Hidden -ExecutionPolicy Bypass -EncodedCommand QQA="
    );
    let args = powershell_arguments("QQA=");
    assert_eq!(args.len(), 8);
    assert_eq!(args[6], "-EncodedCommand");
    assert_eq!(args[7], "QQA=");
    assert_eq!(test_notification(), ("Blocking starts in 10 minutes", "This is how the heads-up will look before a block."));
    assert_eq!(fallback_failed_message("no session.", "no desktop."), "no session. no desktop.");
    assert_eq!(test_failed_message(Some("not found"), ""), "Could not start PowerShell: not found");
    assert_eq!(test_failed_message(None, "  boom \n"), "The notification could not be shown. boom");
}
