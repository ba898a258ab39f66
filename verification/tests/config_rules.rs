use app_blocker::config::{
    finish_loading, is_legacy_json, is_valid_sid, not_json_message, read_settings_text, strip_bom, uses_current_format,
    validate_executable, Config, Parsed, Policies, Policy, ScheduleMode,
};
use app_blocker::time::Block;
use serde_json::Value;

const SID: &str = "S-1-5-21-1000-1000-1000-1000";

fn base() -> Value {
    let text = format!(
        r#"{{"BlockStart": "23:00", "BlockEnd": "07:00", "CheckIntervalSeconds": 2, "TargetUserSid": "{SID}",
            "Executables": ["C:\\Program Files\\Example\\Example.exe", "D:\\Tools\\Editor.exe"]}}"#
    );
    serde_json::from_str(&text).unwrap()
}

/// A version 2 file: the base fields with `extra` (a JSON object) written over them.
fn legacy(extra: &str) -> String {
    let mut base = base();
    let extra: Value = serde_json::from_str(extra).unwrap();
    for (k, v) in extra.as_object().unwrap() {
        base[k] = v.clone();
    }
    base.to_string()
}

/// Reads a settings file of version 2, as loading does.
fn from_json_str(text: &str) -> Result<Config, String> {
    match read_settings_text(text)? {
        Some(document) => finish_loading(Parsed::Legacy(document)),
        None => panic!("these files are all of version 2"),
    }
}

#[test]
fn legacy_config_receives_defaults() {
    let c = from_json_str(&legacy("{}")).unwrap();
    assert_eq!(c.executables.len(), 2, "valid executable list loads");
    assert_eq!(c.schedule_mode, ScheduleMode::EveryDay);
    assert_eq!(c.policies, Policies::default(), "permissive policy defaults");
    assert_eq!(c.days.monday.blocks, vec![Block::new(1380, 420).unwrap()]);
    assert!(c.days.weekday.enabled && c.days.weekend.enabled && c.days.monday.enabled);
    assert!(!c.setup_completed);
}

#[test]
fn legacy_config_migrates_every_field() {
    let c = from_json_str(&legacy(
        r#"{
            "ScheduleMode": "IndividualDays",
            "WednesdayBlockStart": "14:00", "WednesdayBlockEnd": "15:00", "WednesdayEnabled": false,
            "SaturdayBlockStart": "00:00", "SaturdayBlockEnd": "09:00",
            "ChangeTimesPolicy": "Never", "UninstallPolicy": "AllowedHoursOnly",
            "SetupCompleted": true, "SetupVersion": 2
        }"#,
    ))
    .unwrap();
    assert_eq!(c.schedule_mode, ScheduleMode::IndividualDays);
    assert!(!c.days.wednesday.enabled);
    assert_eq!(c.days.wednesday.blocks, vec![Block::new(840, 900).unwrap()]);
    assert_eq!(c.days.saturday.blocks, vec![Block::new(0, 540).unwrap()]);
    assert_eq!(c.policies.change_times, Policy::Never);
    assert_eq!(c.policies.uninstall, Policy::AllowedHoursOnly);
    assert!(c.setup_completed);
}

#[test]
fn disabled_day_does_not_require_a_range() {
    let text = legacy(
        r#"{
            "ScheduleMode": "IndividualDays",
            "MondayBlockStart": "10:00", "MondayBlockEnd": "10:00", "MondayEnabled": false,
            "Executables": []
        }"#,
    );
    assert!(from_json_str(&text).unwrap().days.monday.blocks.is_empty());
}

#[test]
fn enabled_equal_range_is_rejected() {
    assert!(from_json_str(&legacy(r#"{ "BlockStart": "08:00", "BlockEnd": "08:00" }"#)).is_err());
}

#[test]
fn invalid_values_are_rejected() {
    assert!(from_json_str(&legacy(r#"{ "TargetUserSid": "not-a-sid" }"#)).is_err(), "bad SID");
    assert!(from_json_str(&legacy(r#"{ "Executables": ["relative-program.exe"] }"#)).is_err(), "relative exe");
    assert!(from_json_str(&legacy(r#"{ "Executables": ["C:\\Tools\\notes.txt"] }"#)).is_err(), "not an exe");
    assert!(from_json_str(&legacy(r#"{ "Executables": ["C:\\Tools\\*.exe"] }"#)).is_err(), "wildcard file name");
    assert!(from_json_str(&legacy(r#"{ "Executables": ["C:\\Tools\\app-*\\Tool.exe"] }"#)).is_ok(), "wildcard folder");
    assert!(from_json_str(&legacy(r#"{ "ChangeTimesPolicy": "Sometimes" }"#)).is_err(), "bad policy");
    assert!(from_json_str(&legacy(r#"{ "CheckIntervalSeconds": 0 }"#)).is_err(), "bad interval");
    assert!(from_json_str(&legacy(r#"{ "BlockStart": "25:00" }"#)).is_err(), "bad time");
}

#[test]
fn sid_format() {
    assert!(is_valid_sid(SID));
    assert!(is_valid_sid("S-1-5-18"));
    assert!(!is_valid_sid("S-1-5"));
    assert!(!is_valid_sid("S-2-5-18"));
    assert!(!is_valid_sid("INSTALLER_WILL_SET_THIS"));
}

#[test]
fn migration_errors_name_the_problem() {
    assert_eq!(
        from_json_str(&legacy(r#"{ "ScheduleMode": "Weekly" }"#)).unwrap_err(),
        "ScheduleMode must be 'EveryDay', 'WeekdayWeekend', or 'IndividualDays'."
    );
    assert_eq!(
        from_json_str(&legacy(r#"{ "TurnOffProtectionPolicy": "Sometimes" }"#)).unwrap_err(),
        "TurnOffProtectionPolicy has an invalid value."
    );
    assert_eq!(
        from_json_str(&legacy(r#"{ "BlockStart": "08:00", "BlockEnd": "08:00" }"#)).unwrap_err(),
        "Every-day start and end times must be different."
    );
    assert_eq!(
        from_json_str(&legacy(r#"{ "BlockStart": "25:00" }"#)).unwrap_err(),
        "Invalid time '25:00'. Use 24-hour HH:MM format."
    );
    assert_eq!(
        from_json_str(&legacy(r#"{ "CheckIntervalSeconds": 0 }"#)).unwrap_err(),
        "check_interval_seconds must be between 1 and 60."
    );
    assert_eq!(
        from_json_str(&legacy(r#"{ "TargetUserSid": "" }"#)).unwrap_err(),
        "target_user_sid is required."
    );
    assert_eq!(
        from_json_str(&legacy(r#"{ "TargetUserSid": "not-a-sid" }"#)).unwrap_err(),
        "target_user_sid is not a valid Windows security identifier."
    );
}

#[test]
fn migration_reads_single_executable_and_versions() {
    let c = from_json_str(&legacy(r#"{ "Executables": "C:\\Games\\game.exe", "SetupCompleted": true }"#)).unwrap();
    assert_eq!(c.executables, vec!["C:\\Games\\game.exe".to_string()]);
    assert!(!c.setup_completed, "SetupVersion below 2 leaves setup unfinished");
    let c = from_json_str(&legacy(r#"{ "Executables": ["C:\\A\\a.exe", 5, null, "C:\\B\\b.exe"] }"#)).unwrap();
    assert_eq!(c.executables, vec!["C:\\A\\a.exe".to_string(), "C:\\B\\b.exe".to_string()]);
    assert_eq!(c.version, 3);
    assert_eq!(c.policies.change_locks, Policy::Never);
}

#[test]
fn byte_order_marks_are_skipped() {
    assert_eq!(strip_bom("\u{feff}\u{feff}{}"), "{}");
    assert_eq!(strip_bom("{}\u{feff}"), "{}\u{feff}");
    let c = from_json_str(&format!("\u{feff}{}", legacy("{}"))).unwrap();
    assert_eq!(c.executables.len(), 2);
}

#[test]
fn only_version_three_and_later_is_current() {
    assert!(!uses_current_format(None));
    assert!(!uses_current_format(Some(2)));
    assert!(uses_current_format(Some(3)));
    assert!(uses_current_format(Some(7)));
}

#[test]
fn executable_rules() {
    assert_eq!(validate_executable("C:\\Tools\\Tool.exe"), Ok(()));
    assert_eq!(validate_executable("D:/Tools/Tool.EXE"), Ok(()));
    assert_eq!(validate_executable("\\\\server\\share\\Tool.exe"), Ok(()));
    assert_eq!(
        validate_executable("Tool.exe"),
        Err("Invalid executable path 'Tool.exe'. Choose an absolute .exe path.".to_string())
    );
    assert_eq!(
        validate_executable("C:Tool.exe"),
        Err("Invalid executable path 'C:Tool.exe'. Choose an absolute .exe path.".to_string())
    );
    assert_eq!(
        validate_executable("C:\\Tools\\.exe"),
        Err("Invalid executable path 'C:\\Tools\\.exe'. Choose an absolute .exe path.".to_string())
    );
    assert_eq!(
        validate_executable("C:\\Tools\\*.exe"),
        Err("Invalid executable path 'C:\\Tools\\*.exe'. Only folder names may contain '*'.".to_string())
    );
    assert_eq!(
        validate_executable("C:\\Tools\\a?.exe"),
        Err("Invalid executable path 'C:\\Tools\\a?.exe'. Only folder names may contain '*'.".to_string())
    );
    assert_eq!(validate_executable("C:\\Tools\\app-*\\Tool.exe"), Ok(()));
    assert_eq!(validate_executable("C:\\Tools\\Tool.exe\\"), Ok(()), "trailing separators do not count");
}

#[test]
fn default_configuration() {
    let c = Config::default();
    assert_eq!(c.version, 3);
    assert!(!c.setup_completed);
    assert_eq!(c.schedule_mode, ScheduleMode::EveryDay);
    assert_eq!(c.days.every_day.blocks, vec![Block::new(1380, 420).unwrap()]);
    assert_eq!(c.days.saturday.blocks, vec![Block::new(0, 540).unwrap()]);
    assert_eq!(c.check_interval_seconds, 2);
    assert!(c.executables.is_empty());
    assert_eq!(c.policies.change_locks, Policy::Never);
}

#[test]
fn overlapping_blocks_are_rejected() {
    let mut c = Config { target_user_sid: SID.into(), ..Config::default() };
    c.days.monday.blocks = vec![Block::new(600, 660).unwrap(), Block::new(1320, 1440).unwrap()];
    assert_eq!(c.validate_schedule(), Ok(()));
    assert_eq!(c.validate(), Ok(()));
    c.days.monday.blocks.push(Block::new(630, 700).unwrap());
    assert_eq!(c.validate_schedule(), Err("Two blocks overlap on Monday.".to_string()));
    assert_eq!(c.validate(), Err("Two blocks overlap on Monday.".to_string()));
}

#[test]
fn schedule_check_covers_everything_but_the_sid() {
    let mut c = Config::default();
    assert_eq!(c.validate_schedule(), Ok(()), "the SID is not looked at");
    assert_eq!(c.validate(), Err("target_user_sid is required.".to_string()));
    c.check_interval_seconds = 0;
    assert_eq!(c.validate_schedule(), Err("check_interval_seconds must be between 1 and 60.".to_string()));
    c.check_interval_seconds = 61;
    assert!(c.validate_schedule().is_err());
    c.check_interval_seconds = 60;
    c.preferences.notify_minutes = 0;
    assert_eq!(c.validate_schedule(), Err("notify_minutes must be between 1 and 60.".to_string()));
    c.preferences.notify_minutes = 10;
    c.executables = vec![r"C:\Tools\a.exe".into(), "relative.exe".into(), r"C:\Tools\notes.txt".into()];
    assert_eq!(
        c.validate_schedule(),
        Err("Invalid executable path 'relative.exe'. Choose an absolute .exe path.".to_string()),
        "the first invalid executable is named"
    );
    c.executables = vec![r"C:\Tools\app-*\Tool.exe".into()];
    assert_eq!(c.validate_schedule(), Ok(()));
    c.target_user_sid = "not-a-sid".into();
    assert_eq!(c.validate_schedule(), Ok(()));
    assert_eq!(c.validate(), Err("target_user_sid is not a valid Windows security identifier.".to_string()));
}

#[test]
fn settings_texts_are_told_apart() {
    assert!(is_legacy_json(&legacy("{}")));
    assert!(is_legacy_json(&format!("\u{feff}{}", legacy("{}"))), "a byte order mark is skipped");
    assert!(!is_legacy_json(r#"{"version": 3, "days": {}}"#));
    assert!(!is_legacy_json(r#"{"version": null}"#), "a version of any kind counts");
    assert!(is_legacy_json("[1, 2]"), "JSON that is not an object records no version");
    assert!(!is_legacy_json("not json"));
    assert!(matches!(read_settings_text(r#"{"version": 3}"#), Ok(None)));
    assert!(matches!(read_settings_text(r#"{"version": 4}"#), Ok(None)));
    assert!(matches!(read_settings_text(r#"{"version": 2}"#), Ok(Some(_))));
    assert!(matches!(read_settings_text(r#"{"version": "3"}"#), Ok(Some(_))), "a version that is not a number");
    let error = match read_settings_text("{") {
        Err(e) => e,
        Ok(_) => panic!("not JSON"),
    };
    assert!(error.starts_with("The configuration is not valid JSON: "), "{error}");
    assert_eq!(error, not_json_message(&serde_json::from_str::<Value>("{").unwrap_err().to_string()));
    match read_settings_text(r#"{"BlockStart": "23:00", "Executables": ["a", 1], "Big": -1, "On": true}"#) {
        Ok(Some(d)) => {
            assert_eq!(d.text("BlockStart"), Some("23:00".to_string()));
            assert_eq!(d.flag("On", false), true);
            assert_eq!(d.whole("Big", 7), 7, "a negative number is no whole number");
        }
        _ => panic!("a version 2 document"),
    }
}
