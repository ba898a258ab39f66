use app_blocker::config::{Config, Policies, Policy, ScheduleMode};
use app_blocker::panel::{
    add_picked, removal_blocked, installed_config, is_dirty, saved_changes, saved_locks, setup_progress, apps_note, apps_summary, can_skip, closing, describe_change, install_confirmation, lock_confirmation, opening,
    protection_request, protection_state, protection_texts, remove_label, remove_selected, saved_message,
    schedule_editable, schedule_summary, setup_steps, toggle_selection, Closing, Opening, Protection,
    ProtectionRequest,
};
use app_blocker::schedule::Moment;
use app_blocker::time::Block;
use app_blocker::task::TaskInfo;
use chrono::{Datelike, NaiveDateTime, Timelike};

fn at(text: &str) -> Moment {
    let t = NaiveDateTime::parse_from_str(text, "%Y-%m-%d %H:%M:%S").unwrap();
    Moment { day: t.date().num_days_from_ce(), second: t.num_seconds_from_midnight(), nano: t.nanosecond() }
}

#[test]
fn protection_status() {
    let on = Some(Some(TaskInfo { enabled: true, command: "x.exe".into() }));
    let off = Some(Some(TaskInfo { enabled: false, command: "x.exe".into() }));
    assert!(matches!(protection_state(&None, &None), Protection::Checking));
    assert!(matches!(protection_state(&None, &Some(None)), Protection::Missing));
    assert!(matches!(protection_state(&None, &on), Protection::On));
    assert!(matches!(protection_state(&None, &off), Protection::Off));
    match protection_state(&Some("unreadable".into()), &on) {
        Protection::Attention(m) => assert_eq!(m, "unreadable"),
        _ => panic!("a read error needs attention"),
    }
    assert_eq!(protection_texts(&Protection::On, true, 1), ("Blocking now", "1 app is blocked right now.".to_string()));
    assert_eq!(
        protection_texts(&Protection::On, false, 3),
        ("Protection on", "3 apps are currently allowed; the schedule is still running.".to_string())
    );
    assert_eq!(
        protection_texts(&Protection::Off, false, 0),
        ("Protection off", "0 apps are configured; all apps are currently allowed.".to_string())
    );
    assert_eq!(
        protection_texts(&Protection::Missing, false, 0).1,
        "The background task is missing. Repair Windows App Blocker to restore it."
    );
}

#[test]
fn change_lines() {
    assert_eq!(
        describe_change(&at("2026-01-05 20:15:42"), &at("2026-01-05 23:00:00"), false),
        "Next block starts 23:00 · in 2h 45m"
    );
    assert_eq!(
        describe_change(&at("2026-01-05 23:30:00"), &at("2026-01-06 07:00:00"), true),
        "Apps allowed again tomorrow 07:00 · in 7h 31m"
    );
    assert_eq!(
        describe_change(&at("2026-01-05 10:00:00"), &at("2026-01-08 09:00:00"), false),
        "Next block starts Thursday 09:00 · in 71h 1m"
    );
    assert_eq!(describe_change(&at("2026-01-05 10:00:00"), &at("2026-01-05 09:00:00"), false), "Next block starts 09:00 · in 1m");
}

#[test]
fn protection_switch() {
    let mut c = Config::default();
    let blocked = at("2026-01-05 23:30:00");
    let allowed = at("2026-01-05 12:00:00");
    assert_eq!(protection_request(&c, &blocked, false), Err("Add at least one .exe before turning protection on.".to_string()));
    c.executables = vec![r"C:\x.exe".into()];
    assert_eq!(protection_request(&c, &blocked, false), Ok(ProtectionRequest::TurnOn));
    assert_eq!(protection_request(&c, &blocked, true), Ok(ProtectionRequest::TurnOff));
    c.policies.turn_off = Policy::AllowedHoursOnly;
    assert_eq!(
        protection_request(&c, &blocked, true),
        Err("Turning protection off is unavailable during blocked hours. Try again during allowed hours.".to_string())
    );
    assert_eq!(protection_request(&c, &allowed, true), Ok(ProtectionRequest::TurnOff));
    c.policies.turn_off = Policy::Never;
    assert_eq!(
        protection_request(&c, &allowed, true),
        Err("Turning protection off is unavailable because you chose ‘No — never’ during setup.".to_string())
    );
}

#[test]
fn panel_texts() {
    assert_eq!(saved_message(true), "Your apps and blocking hours are saved.");
    assert_eq!(saved_message(false), "Your app list is saved. Blocking hours are locked right now.");
    assert_eq!(remove_label(0), "Remove selected");
    assert_eq!(remove_label(1), "Remove selected");
    assert_eq!(remove_label(4), "Remove 4 selected");
    assert_eq!(setup_steps(), ["Lock choices", "Apps", "Schedule", "Finish"]);
    assert_eq!(apps_summary(0), "None yet — add them from the control panel");
    assert_eq!(apps_summary(2), "2 selected");
    assert_eq!(schedule_summary(ScheduleMode::EveryDay, 1), "Same hours every day · 1 block");
    assert_eq!(schedule_summary(ScheduleMode::IndividualDays, 7), "Individual hours for each day · 7 blocks");
    assert_eq!(
        apps_note(Policy::Always),
        "Optional — you can skip this step. Apps can be added any time later from the control panel, and removed any time."
    );
    assert_eq!(
        apps_note(Policy::AllowedHoursOnly),
        "Optional — you can skip this step. Apps can be added any time later from the control panel, and removed allowed hours only."
    );
}

#[test]
fn setup_steps_and_locks() {
    let now = at("2026-01-05 23:30:00");
    let mut previous = Config::default();
    previous.policies.change_times = Policy::AllowedHoursOnly;
    assert!(schedule_editable(&None, true, &now));
    assert!(schedule_editable(&Some(previous.clone()), false, &now));
    assert!(!schedule_editable(&Some(previous.clone()), true, &now));
    assert!(schedule_editable(&Some(previous), true, &at("2026-01-05 12:00:00")));
    assert!(!can_skip(0, true, Policy::Always));
    assert!(can_skip(1, true, Policy::Never));
    assert!(!can_skip(2, true, Policy::Never));
    assert!(can_skip(2, false, Policy::Never));
    assert!(can_skip(2, true, Policy::Always));
    assert!(!can_skip(3, true, Policy::Always));

    let mut p = Policies::default();
    assert_eq!(install_confirmation(&p, false), None);
    p.turn_off = Policy::Never;
    p.remove_executables = Policy::Never;
    assert_eq!(
        install_confirmation(&p, false).unwrap(),
        "You chose ‘No — never’ for:\n\n• turn protection off\n• remove apps from the block list\n\nThese controls will stay disabled after setup, and they are kept if you reinstall. Windows administrators can still bypass this self-control tool outside the app. Continue?"
    );
    assert_eq!(install_confirmation(&p, true), None, "choices kept from before are not asked again");

    let before = Policies::default();
    let mut after = before;
    after.uninstall = Policy::AllowedHoursOnly;
    assert_eq!(lock_confirmation(&before, &after), None);
    after.change_times = Policy::Never;
    assert_eq!(
        lock_confirmation(&before, &after).unwrap(),
        "You chose ‘No — never’ for:\n\n• Change blocking hours\n\nThis cannot be undone from the app, even by reinstalling it. Continue?"
    );
    assert_eq!(lock_confirmation(&before, &before), None, "change_locks was already never");
}

#[test]
fn opening_and_closing() {
    assert!(matches!(opening(Some(true), true, false, &None), Opening::Control));
    match opening(Some(true), false, false, &None) {
        Opening::Setup { locked, notice } => {
            assert!(locked);
            assert_eq!(notice.unwrap(), "Welcome back. Your apps, schedule and lock choices were kept from your previous installation.");
        }
        Opening::Control => panic!("not installed"),
    }
    match opening(Some(false), true, true, &None) {
        Opening::Setup { locked, notice } => {
            assert!(!locked);
            assert!(notice.unwrap().starts_with("Upgrading from the previous version."));
        }
        Opening::Control => panic!("setup was not finished"),
    }
    match opening(None, false, false, &Some("bad JSON".into())) {
        Opening::Setup { locked, notice } => {
            assert!(!locked);
            assert_eq!(notice.unwrap(), "Your previous settings could not be read, so setup starts fresh. (bad JSON)");
        }
        Opening::Control => panic!("nothing was read"),
    }
    assert!(matches!(opening(None, true, false, &None), Opening::Setup { locked: false, notice: None }));
    assert_eq!(closing(true, true, true), Closing::Wait);
    assert_eq!(closing(false, true, true), Closing::SaveProgress);
    assert_eq!(closing(false, false, true), Closing::ConfirmDiscard);
    assert_eq!(closing(false, false, false), Closing::Close);
}

#[test]
fn selections() {
    let mut selected = vec!["a".to_string(), "b".to_string()];
    toggle_selection(&mut selected, "a");
    assert_eq!(selected, vec!["b".to_string()]);
    toggle_selection(&mut selected, "c");
    assert_eq!(selected, vec!["b".to_string(), "c".to_string()]);
    let mut executables = vec!["a".to_string(), "b".to_string(), "a".to_string(), "c".to_string()];
    remove_selected(&mut executables, &["a".to_string(), "z".to_string()]);
    assert_eq!(executables, vec!["b".to_string(), "c".to_string()]);
}

const SID: &str = "S-1-5-21-1-2-3-1001";

#[test]
fn reinstall_keeps_lock_choices() {
    let blocked = at("2026-01-05 23:30:00");
    let allowed = at("2026-01-05 12:00:00");
    let mut previous = Config::default();
    previous.policies.change_times = Policy::AllowedHoursOnly;
    previous.policies.turn_off = Policy::Never;
    previous.setup_completed = true;
    let mut draft = previous.clone();
    draft.policies = Policies::default();
    draft.executables = vec![r"C:\Games\game.exe".into()];
    draft.schedule_mode = ScheduleMode::WeekdayWeekend;
    draft.days.every_day.blocks = vec![Block::new(60, 120).unwrap()];
    draft.setup_completed = false;

    let c = installed_config(draft.clone(), Some(previous.clone()), true, &blocked);
    assert_eq!(c.policies, previous.policies);
    assert_eq!(c.schedule_mode, previous.schedule_mode, "hours are locked while blocked");
    assert_eq!(c.days, previous.days);
    assert_eq!(c.executables, draft.executables);
    assert!(c.setup_completed);

    let c = installed_config(draft.clone(), Some(previous.clone()), true, &allowed);
    assert_eq!(c.policies, previous.policies);
    assert_eq!(c.schedule_mode, ScheduleMode::WeekdayWeekend);
    assert_eq!(c.days, draft.days);

    let c = installed_config(draft.clone(), Some(previous), false, &blocked);
    assert_eq!(c.policies, Policies::default(), "choices not kept are the wizard's");
    assert_eq!(c.days, draft.days);
    let c = installed_config(draft.clone(), None, true, &blocked);
    assert_eq!(c.policies, Policies::default());
    assert!(c.setup_completed);
}

#[test]
fn setup_progress_is_saved_when_complete_enough() {
    let mut previous = Config::default();
    previous.policies.uninstall = Policy::Never;
    let mut draft = Config::default();
    assert_eq!(setup_progress(draft.clone(), &None, false), None, "the account is not known yet");
    draft.target_user_sid = SID.into();
    assert_eq!(setup_progress(draft.clone(), &None, false), Some(draft.clone()));
    let kept = setup_progress(draft.clone(), &Some(previous.clone()), true).unwrap();
    assert_eq!(kept.policies, previous.policies);
    assert_eq!(setup_progress(draft.clone(), &Some(previous), false).unwrap().policies, Policies::default());
    draft.days.every_day.blocks.push(Block::new(0, 60).unwrap());
    assert_eq!(setup_progress(draft, &None, false), None, "overlapping blocks are not saved");
}

#[test]
fn unsaved_changes() {
    let saved = Config::default();
    let mut draft = saved.clone();
    assert!(!is_dirty(&None, &draft));
    assert!(!is_dirty(&Some(saved.clone()), &draft));
    draft.preferences.notify_minutes = 15;
    assert!(!is_dirty(&Some(saved.clone()), &draft), "preferences are saved on their own");
    draft.days.monday.blocks.push(Block::new(60, 120).unwrap());
    assert!(is_dirty(&Some(saved.clone()), &draft));
    let mut draft = saved.clone();
    draft.executables.push(r"C:\a.exe".into());
    assert!(is_dirty(&Some(saved.clone()), &draft));
    let mut draft = saved.clone();
    draft.schedule_mode = ScheduleMode::IndividualDays;
    assert!(is_dirty(&Some(saved), &draft));
}

#[test]
fn saving_from_the_control_panel() {
    let blocked = at("2026-01-05 23:30:00");
    let allowed = at("2026-01-05 12:00:00");
    let mut saved = Config::default();
    saved.policies.change_times = Policy::AllowedHoursOnly;
    let mut draft = saved.clone();
    draft.executables = vec![r"C:\a.exe".into()];
    draft.days.every_day.blocks = vec![Block::new(60, 120).unwrap()];
    draft.policies.uninstall = Policy::Never;

    let (next, hours) = saved_changes(saved.clone(), &draft, &allowed).unwrap();
    assert!(hours);
    assert_eq!(next.executables, draft.executables);
    assert_eq!(next.days, draft.days);
    assert_eq!(next.policies, saved.policies, "lock choices are not saved from the panel");

    let (next, hours) = saved_changes(saved.clone(), &draft, &blocked).unwrap();
    assert!(!hours);
    assert_eq!(next.executables, draft.executables);
    assert_eq!(next.days, saved.days);

    draft.days.every_day.blocks.push(Block::new(90, 150).unwrap());
    assert_eq!(saved_changes(saved.clone(), &draft, &allowed), Err("Two blocks overlap on Every day.".to_string()));
    assert!(saved_changes(saved, &draft, &blocked).is_ok(), "locked hours are not checked");
}

#[test]
fn saving_lock_choices() {
    let blocked = at("2026-01-05 23:30:00");
    let allowed = at("2026-01-05 12:00:00");
    let mut saved = Config::default();
    assert!(saved_locks(saved.clone(), saved.policies, &allowed).is_err(), "locked by default");
    saved.policies.change_locks = Policy::Always;
    let mut locks = saved.policies;
    locks.turn_off = Policy::Never;
    assert_eq!(saved_locks(saved.clone(), locks, &blocked).unwrap().policies, locks);
    saved.policies.change_locks = Policy::AllowedHoursOnly;
    assert_eq!(
        saved_locks(saved.clone(), locks, &blocked),
        Err("Lock choices cannot be changed during blocked hours. Try again during allowed hours.".to_string())
    );
    assert_eq!(saved_locks(saved.clone(), locks, &allowed).unwrap().policies, locks);
    saved.policies.change_locks = Policy::Never;
    assert_eq!(
        saved_locks(saved, locks, &allowed),
        Err("Lock choices cannot be changed because you chose ‘No — never’ during setup.".to_string())
    );
}

#[test]
fn picked_programs() {
    let mut list = vec![r"C:\Games\a.exe".to_string()];
    add_picked(
        &mut list,
        &[
            r"C:\Games\b.exe".to_string(),
            r"c:\games\A.EXE".to_string(),
            r"C:\Games\readme.txt".to_string(),
            "b.exe".to_string(),
            r"C:\Games\b.exe".to_string(),
        ],
    );
    assert_eq!(list, vec![r"C:\Games\a.exe".to_string(), r"C:\Games\b.exe".to_string()]);
}

#[test]
fn removing_protected_apps() {
    let protected = vec![r"C:\Games\game.exe".to_string(), r"C:\Chat\app-*\chat.exe".to_string()];
    let selection = vec![r"c:\games\GAME.EXE".to_string()];
    assert!(removal_blocked(false, &selection, &protected));
    assert!(!removal_blocked(true, &selection, &protected), "the lock allows it");
    let added_since = vec![r"C:\Games\other.exe".to_string()];
    assert!(!removal_blocked(false, &added_since, &protected), "apps not saved yet may go");
    assert!(!removal_blocked(false, &[], &protected));
    let pattern = vec![r"C:\Chat\app-*\chat.exe".to_string()];
    assert!(removal_blocked(false, &pattern, &protected));
}
