//! What the control panel, the settings and the setup wizard decide: the protection status they
//! show, what a switch or a button may do, and the texts they show.
use crate::config::{same_text, texts, Config, ConfigView, DaySchedule, Days, Policies, Policy, ScheduleMode};
use crate::time::Block;
use crate::paths::{lemma_nothing_normalized, normalize_all, normalize_outcomes, opt_texts};
use crate::detect::{appended_unless_listed, kept_upto, lemma_kept_upto_extend, may_be_listed};
use crate::notify::{seconds_between, whole_seconds_between};
use crate::policy::{allowed, can_use, unavailable_message, unavailable_text};
use crate::schedule::{Moment, LAST_DAY};
use crate::task::TaskInfo;
use crate::text::{decimal, push_decimal};
use crate::time::{duration_text, format_duration, format_hhmm, hhmm_text};
use crate::timeline::{count_text, count_text_spec};
use vstd::prelude::*;
use vstd::string::*;

verus! {

broadcast use vstd::string::group_string_axioms;

/// The state of protection shown in the header.
pub enum Protection {
    /// The background task has not been read yet.
    Checking,
    /// The background task does not exist.
    Missing,
    /// The task is enabled.
    On,
    /// The task is disabled.
    Off,
    /// The settings could not be read; the message says why.
    Attention(String),
}

/// The state shown, from the error reading the settings (if any) and the task as last read
/// (`None` before the first read; `Some(None)` when there is no task).
pub fn protection_state(load_error: &Option<String>, task: &Option<Option<TaskInfo>>) -> (r: Protection)
    ensures
        match load_error {
            Some(e) => r matches Protection::Attention(m) && m@ == e@,
            None => match task {
                None => r is Checking,
                Some(None) => r is Missing,
                Some(Some(info)) => if info.enabled {
                    r is On
                } else {
                    r is Off
                },
            },
        },
{
    match load_error {
        Some(e) => Protection::Attention(e.clone()),
        None => match task {
            None => Protection::Checking,
            Some(None) => Protection::Missing,
            Some(Some(info)) => if info.enabled {
                Protection::On
            } else {
                Protection::Off
            },
        },
    }
}

/// The title and the detail shown for a protection state, while apps are (or are not) being
/// blocked, with `count` apps in the block list.
pub open spec fn protection_text(state: Protection, blocked: bool, count: nat) -> (Seq<char>, Seq<char>) {
    match state {
        Protection::Checking => ("Checking…"@, "Reading the background task."@),
        Protection::Missing => (
            "Needs attention"@,
            "The background task is missing. Repair Windows App Blocker to restore it."@,
        ),
        Protection::Attention(e) => ("Needs attention"@, e@),
        Protection::On => if blocked {
            ("Blocking now"@, count_text_spec(count) + " blocked right now."@)
        } else {
            (
                "Protection on"@,
                count_text_spec(count) + " currently allowed; the schedule is still running."@,
            )
        },
        Protection::Off => (
            "Protection off"@,
            count_text_spec(count) + " configured; all apps are currently allowed."@,
        ),
    }
}

pub fn protection_texts(state: &Protection, blocked: bool, count: usize) -> (r: (&'static str, String))
    ensures
        (r.0@, r.1@) == protection_text(*state, blocked, count as nat),
{
    match state {
        Protection::Checking => ("Checking…", String::from_str("Reading the background task.")),
        Protection::Missing => (
            "Needs attention",
            String::from_str(
                "The background task is missing. Repair Windows App Blocker to restore it.",
            ),
        ),
        Protection::Attention(e) => ("Needs attention", e.clone()),
        Protection::On => {
            let mut s = count_text(count);
            if blocked {
                s.append(" blocked right now.");
                ("Blocking now", s)
            } else {
                s.append(" currently allowed; the schedule is still running.");
                ("Protection on", s)
            }
        },
        Protection::Off => {
            let mut s = count_text(count);
            s.append(" configured; all apps are currently allowed.");
            ("Protection off", s)
        },
    }
}

/// The English name of a weekday, Monday = 0.
pub open spec fn weekday_name(weekday: int) -> Seq<char> {
    if weekday == 0 {
        "Monday"@
    } else if weekday == 1 {
        "Tuesday"@
    } else if weekday == 2 {
        "Wednesday"@
    } else if weekday == 3 {
        "Thursday"@
    } else if weekday == 4 {
        "Friday"@
    } else if weekday == 5 {
        "Saturday"@
    } else {
        "Sunday"@
    }
}

fn weekday_name_exec(weekday: u32) -> (r: &'static str)
    ensures
        r@ == weekday_name(weekday as int),
{
    if weekday == 0 {
        "Monday"
    } else if weekday == 1 {
        "Tuesday"
    } else if weekday == 2 {
        "Wednesday"
    } else if weekday == 3 {
        "Thursday"
    } else if weekday == 4 {
        "Friday"
    } else if weekday == 5 {
        "Saturday"
    } else {
        "Sunday"
    }
}

/// Whole minutes from `now` to `at` (none when `at` is not later), plus one: the minute now
/// under way counts.
pub open spec fn minutes_until(now: Moment, at: Moment) -> int {
    let s = whole_seconds_between(now, at);
    (if s > 0 {
        s / 60
    } else {
        0
    }) + 1
}

/// When `at` is, seen from `now`: its time today, `tomorrow` and its time, or its weekday and
/// time.
pub open spec fn when_text(now: Moment, at: Moment) -> Seq<char> {
    let time = hhmm_text(at.minute() as nat);
    if at.day == now.day {
        time
    } else if now.day < LAST_DAY && at.day == now.day + 1 {
        "tomorrow "@ + time
    } else {
        weekday_name(at.weekday()) + " "@ + time
    }
}

/// The line under the status: when blocking next ends (while `blocked`) or starts.
pub open spec fn change_text(now: Moment, at: Moment, blocked: bool) -> Seq<char> {
    (if blocked {
        "Apps allowed again "@
    } else {
        "Next block starts "@
    }) + when_text(now, at) + " · in "@ + duration_text(minutes_until(now, at) as nat)
}

pub fn describe_change(now: &Moment, at: &Moment, blocked: bool) -> (r: String)
    requires
        now.wf(),
        at.wf(),
        minutes_until(*now, *at) <= u32::MAX,
    ensures
        r@ == change_text(*now, *at, blocked),
{
    let seconds = seconds_between(now, at);
    let whole: i64 = if seconds > 0 {
        seconds / 60
    } else {
        0
    };
    let minutes: u32 = (whole + 1) as u32;
    let mut s = String::from_str(if blocked {
        "Apps allowed again "
    } else {
        "Next block starts "
    });
    let time = format_hhmm(at.minute_of_day());
    if at.day == now.day {
        s.append(time.as_str());
    } else if now.day < LAST_DAY && at.day == now.day + 1 {
        s.append("tomorrow ");
        s.append(time.as_str());
    } else {
        s.append(weekday_name_exec(at.weekday_index()));
        s.append(" ");
        s.append(time.as_str());
    }
    s.append(" · in ");
    let d = format_duration(minutes);
    s.append(d.as_str());
    s
}

/// What the protection switch asks for.
#[derive(Clone, Copy, Debug, PartialEq, Eq, Structural)]
pub enum ProtectionRequest {
    TurnOff,
    TurnOn,
}

/// What flipping the protection switch does: turning it off needs the turn-off lock to allow it
/// now; turning it on needs at least one app in the block list.
pub open spec fn protection_request_spec(config: ConfigView, now: Moment, currently_on: bool) -> Result<ProtectionRequest, Seq<char>> {
    if currently_on {
        if allowed(config.policies.turn_off, config, now) {
            Ok(ProtectionRequest::TurnOff)
        } else {
            Err(unavailable_text(config.policies.turn_off, "Turning protection off is unavailable"@))
        }
    } else if config.executables.len() == 0 {
        Err("Add at least one .exe before turning protection on."@)
    } else {
        Ok(ProtectionRequest::TurnOn)
    }
}

pub fn protection_request(config: &Config, now: &Moment, currently_on: bool) -> (r: Result<ProtectionRequest, String>)
    requires
        now.wf(),
    ensures
        match r {
            Ok(q) => protection_request_spec(config@, *now, currently_on) == Ok::<ProtectionRequest, Seq<char>>(q),
            Err(m) => protection_request_spec(config@, *now, currently_on) == Err::<ProtectionRequest, Seq<char>>(m@),
        },
{
    if currently_on {
        if can_use(config.policies.turn_off, config, now) {
            Ok(ProtectionRequest::TurnOff)
        } else {
            Err(unavailable_message(config.policies.turn_off, "Turning protection off is unavailable"))
        }
    } else if config.executables.len() == 0 {
        Err(String::from_str("Add at least one .exe before turning protection on."))
    } else {
        Ok(ProtectionRequest::TurnOn)
    }
}

/// What saving says: the schedule is saved too only when changing hours is allowed now.
pub fn saved_message(can_change_times: bool) -> (r: &'static str)
    ensures
        r@ == if can_change_times {
            "Your apps and blocking hours are saved."@
        } else {
            "Your app list is saved. Blocking hours are locked right now."@
        },
{
    if can_change_times {
        "Your apps and blocking hours are saved."
    } else {
        "Your app list is saved. Blocking hours are locked right now."
    }
}

/// The label of the button that removes the selected apps.
pub fn remove_label(selected: usize) -> (r: String)
    ensures
        r@ == if selected <= 1 {
            "Remove selected"@
        } else {
            "Remove "@ + decimal(selected as nat) + " selected"@
        },
{
    if selected <= 1 {
        String::from_str("Remove selected")
    } else {
        let mut s = String::from_str("Remove ");
        push_decimal(&mut s, selected as u64);
        s.append(" selected");
        s
    }
}

/// The steps of the setup wizard, in order.
pub fn setup_steps() -> (r: [&'static str; 4])
    ensures
        r@.map_values(|t: &'static str| t@) == seq!["Lock choices"@, "Apps"@, "Schedule"@, "Finish"@],
{
    let r = ["Lock choices", "Apps", "Schedule", "Finish"];
    assert(r@.map_values(|t: &'static str| t@) =~= seq!["Lock choices"@, "Apps"@, "Schedule"@, "Finish"@]);
    r
}

/// The step where apps are chosen.
pub const APPS_STEP: usize = 1;

/// The step where the schedule is set.
pub const SCHEDULE_STEP: usize = 2;

/// Whether the schedule may be edited during a setup: always, unless the lock choices are kept
/// from a previous installation, whose "change blocking hours" lock then decides.
pub open spec fn schedule_editable_spec(previous: Option<ConfigView>, locked: bool, now: Moment) -> bool {
    match previous {
        Some(p) => !locked || allowed(p.policies.change_times, p, now),
        None => true,
    }
}

pub fn schedule_editable(previous: &Option<Config>, locked: bool, now: &Moment) -> (r: bool)
    requires
        now.wf(),
    ensures
        r == schedule_editable_spec(
            match previous {
                Some(p) => Some(p@),
                None => None,
            },
            locked,
            *now,
        ),
{
    match previous {
        Some(p) => !locked || can_use(p.policies.change_times, p, now),
        None => true,
    }
}

/// Whether a step of the wizard may be skipped: the apps step always; the schedule step unless
/// it is editable now and could never be changed afterwards; no other step.
pub fn can_skip(step: usize, schedule_editable: bool, change_times: Policy) -> (r: bool)
    ensures
        r == (step == APPS_STEP || (step == SCHEDULE_STEP && !(schedule_editable && change_times
            == Policy::Never))),
{
    if step == APPS_STEP {
        true
    } else if step == SCHEDULE_STEP {
        !(schedule_editable && change_times == Policy::Never)
    } else {
        false
    }
}

/// The note on the apps step: apps can be added later, and removed as the lock allows.
pub open spec fn apps_note_text(remove_executables: Policy) -> Seq<char> {
    "Optional — you can skip this step. Apps can be added any time later from the control panel, and "@
        + (if remove_executables == Policy::Always {
        "removed any time"@
    } else {
        "removed "@ + crate::policy::display_text(remove_executables)
    }) + "."@
}

pub fn apps_note(remove_executables: Policy) -> (r: String)
    ensures
        r@ == apps_note_text(remove_executables),
{
    let mut s = String::from_str(
        "Optional — you can skip this step. Apps can be added any time later from the control panel, and ",
    );
    if remove_executables == Policy::Always {
        s.append("removed any time");
    } else {
        s.append("removed ");
        s.append(crate::policy::display(remove_executables));
    }
    s.append(".");
    s
}

/// The summary line of the schedule: its mode and how many blocks it has.
pub open spec fn schedule_summary_text(mode: ScheduleMode, blocks: nat) -> Seq<char> {
    (match mode {
        ScheduleMode::EveryDay => "Same hours every day"@,
        ScheduleMode::WeekdayWeekend => "Separate weekday and weekend hours"@,
        ScheduleMode::IndividualDays => "Individual hours for each day"@,
    }) + " · "@ + decimal(blocks) + (if blocks == 1 {
        " block"@
    } else {
        " blocks"@
    })
}

pub fn schedule_summary(mode: ScheduleMode, blocks: usize) -> (r: String)
    ensures
        r@ == schedule_summary_text(mode, blocks as nat),
{
    let mut s = String::from_str(
        match mode {
            ScheduleMode::EveryDay => "Same hours every day",
            ScheduleMode::WeekdayWeekend => "Separate weekday and weekend hours",
            ScheduleMode::IndividualDays => "Individual hours for each day",
        },
    );
    s.append(" · ");
    push_decimal(&mut s, blocks as u64);
    if blocks == 1 {
        s.append(" block");
    } else {
        s.append(" blocks");
    }
    s
}

/// The summary line of the block list.
pub fn apps_summary(count: usize) -> (r: String)
    ensures
        r@ == if count == 0 {
            "None yet — add them from the control panel"@
        } else {
            decimal(count as nat) + " selected"@
        },
{
    if count == 0 {
        String::from_str("None yet — add them from the control panel")
    } else {
        let mut s = String::new();
        push_decimal(&mut s, count as u64);
        s.append(" selected");
        s
    }
}

/// Items joined into a bulleted list: `a\n• b\n• c`.
pub open spec fn bulleted(items: Seq<Seq<char>>) -> Seq<char>
    decreases items.len(),
{
    if items.len() == 0 {
        Seq::empty()
    } else if items.len() == 1 {
        items[0]
    } else {
        bulleted(items.drop_last()) + "\n• "@ + items.last()
    }
}

fn bullets(items: &Vec<&'static str>) -> (r: String)
    ensures
        r@ == bulleted(items@.map_values(|t: &'static str| t@)),
{
    let ghost v = items@.map_values(|t: &'static str| t@);
    let mut s = String::new();
    for i in 0..items.len()
        invariant
            v == items@.map_values(|t: &'static str| t@),
            s@ == bulleted(v.take(i as int)),
    {
        assert(v.take(i + 1).drop_last() == v.take(i as int));
        if i > 0 {
            s.append("\n• ");
        }
        s.append(items[i]);
        assert(s@ == bulleted(v.take(i + 1)));
    }
    assert(v.take(items@.len() as int) == v);
    s
}

/// The controls that setup locks for good (`No — never`), by name, in the order of the wizard.
pub open spec fn never_controls(p: Policies) -> Seq<Seq<char>> {
    (if p.change_times == Policy::Never {
        seq!["change blocking hours"@]
    } else {
        seq![]
    }) + (if p.turn_off == Policy::Never {
        seq!["turn protection off"@]
    } else {
        seq![]
    }) + (if p.uninstall == Policy::Never {
        seq!["uninstall from this app"@]
    } else {
        seq![]
    }) + (if p.remove_executables == Policy::Never {
        seq!["remove apps from the block list"@]
    } else {
        seq![]
    })
}

/// What installing asks to confirm first: nothing when no control is locked for good, or the
/// lock choices are kept from a previous installation; else the message naming the locked
/// controls.
pub open spec fn install_confirmation_text(p: Policies, kept: bool) -> Option<Seq<char>> {
    if never_controls(p).len() == 0 || kept {
        None
    } else {
        Some(
            "You chose ‘No — never’ for:\n\n• "@ + bulleted(never_controls(p))
                + "\n\nThese controls will stay disabled after setup, and they are kept if you reinstall. Windows administrators can still bypass this self-control tool outside the app. Continue?"@,
        )
    }
}

pub fn install_confirmation(p: &Policies, kept: bool) -> (r: Option<String>)
    ensures
        match r {
            Some(m) => install_confirmation_text(*p, kept) == Some(m@),
            None => install_confirmation_text(*p, kept) is None,
        },
{
    let mut locked: Vec<&'static str> = Vec::new();
    if p.change_times == Policy::Never {
        locked.push("change blocking hours");
    }
    if p.turn_off == Policy::Never {
        locked.push("turn protection off");
    }
    if p.uninstall == Policy::Never {
        locked.push("uninstall from this app");
    }
    if p.remove_executables == Policy::Never {
        locked.push("remove apps from the block list");
    }
    assert(locked@.map_values(|t: &'static str| t@) =~= never_controls(*p));
    if locked.len() == 0 || kept {
        return None;
    }
    let mut s = String::from_str("You chose ‘No — never’ for:\n\n• ");
    let list = bullets(&locked);
    s.append(list.as_str());
    s.append(
        "\n\nThese controls will stay disabled after setup, and they are kept if you reinstall. Windows administrators can still bypass this self-control tool outside the app. Continue?",
    );
    Some(s)
}

/// The lock choices that a change in Settings makes `No — never` (that were not already), by
/// label, in the order they are listed.
pub open spec fn newly_never_labels(before: Policies, after: Policies) -> Seq<Seq<char>> {
    (if after.change_times == Policy::Never && before.change_times != Policy::Never {
        seq!["Change blocking hours"@]
    } else {
        seq![]
    }) + (if after.turn_off == Policy::Never && before.turn_off != Policy::Never {
        seq!["Turn protection off"@]
    } else {
        seq![]
    }) + (if after.uninstall == Policy::Never && before.uninstall != Policy::Never {
        seq!["Uninstall this app"@]
    } else {
        seq![]
    }) + (if after.remove_executables == Policy::Never && before.remove_executables
        != Policy::Never {
        seq!["Remove apps from the block list"@]
    } else {
        seq![]
    }) + (if after.change_locks == Policy::Never && before.change_locks != Policy::Never {
        seq!["Change these lock choices"@]
    } else {
        seq![]
    })
}

/// What changing lock choices in Settings asks to confirm first: nothing unless a choice
/// becomes `No — never`; then the message naming them.
pub open spec fn lock_confirmation_text(before: Policies, after: Policies) -> Option<Seq<char>> {
    if newly_never_labels(before, after).len() == 0 {
        None
    } else {
        Some(
            "You chose ‘No — never’ for:\n\n• "@ + bulleted(newly_never_labels(before, after))
                + "\n\nThis cannot be undone from the app, even by reinstalling it. Continue?"@,
        )
    }
}

pub fn lock_confirmation(before: &Policies, after: &Policies) -> (r: Option<String>)
    ensures
        match r {
            Some(m) => lock_confirmation_text(*before, *after) == Some(m@),
            None => lock_confirmation_text(*before, *after) is None,
        },
{
    let mut labels: Vec<&'static str> = Vec::new();
    if after.change_times == Policy::Never && before.change_times != Policy::Never {
        labels.push("Change blocking hours");
    }
    if after.turn_off == Policy::Never && before.turn_off != Policy::Never {
        labels.push("Turn protection off");
    }
    if after.uninstall == Policy::Never && before.uninstall != Policy::Never {
        labels.push("Uninstall this app");
    }
    if after.remove_executables == Policy::Never && before.remove_executables != Policy::Never {
        labels.push("Remove apps from the block list");
    }
    if after.change_locks == Policy::Never && before.change_locks != Policy::Never {
        labels.push("Change these lock choices");
    }
    assert(labels@.map_values(|t: &'static str| t@) =~= newly_never_labels(*before, *after));
    if labels.len() == 0 {
        return None;
    }
    let mut s = String::from_str("You chose ‘No — never’ for:\n\n• ");
    let list = bullets(&labels);
    s.append(list.as_str());
    s.append("\n\nThis cannot be undone from the app, even by reinstalling it. Continue?");
    Some(s)
}

/// Which screen the window opens on, and for setup whether the lock choices are kept and the
/// notice shown.
pub enum Opening {
    Control,
    Setup { locked: bool, notice: Option<String> },
}

/// The notice of a setup that resumes from settings on disk.
pub open spec fn resumed_notice(legacy_task: bool, completed: bool) -> Seq<char> {
    if legacy_task {
        "Upgrading from the previous version. Your apps, schedule and lock choices have been carried over."@
    } else if completed {
        "Welcome back. Your apps, schedule and lock choices were kept from your previous installation."@
    } else {
        "Your earlier setup was not finished. Pick up where you left off."@
    }
}

/// The notice of a setup that starts fresh because the settings could not be read.
pub open spec fn unreadable_notice(error: Seq<char>) -> Seq<char> {
    "Your previous settings could not be read, so setup starts fresh. ("@ + error + ")"@
}

/// Whether `r` opens setup with these lock and notice choices.
pub open spec fn opens_setup(r: Opening, locked: bool, notice: Option<Seq<char>>) -> bool {
    match r {
        Opening::Setup { locked: l, notice: n } => l == locked && crate::config::opt_text(n) == notice,
        Opening::Control => false,
    }
}

/// The opening, from the settings on disk (`Some(completed)` when they were read, with whether
/// setup was completed), whether this version is installed, whether the task is the previous
/// PowerShell version's, and the error reading the settings, if any.
pub fn opening(saved: Option<bool>, installed: bool, legacy_task: bool, read_error: &Option<String>) -> (r: Opening)
    ensures
        match saved {
            Some(completed) => if completed && installed {
                r is Control
            } else {
                opens_setup(r, completed, Some(resumed_notice(legacy_task, completed)))
            },
            None => opens_setup(
                r,
                false,
                match read_error {
                    Some(e) => Some(unreadable_notice(e@)),
                    None => None,
                },
            ),
        },
{
    match saved {
        Some(completed) => {
            if completed && installed {
                Opening::Control
            } else {
                let notice = if legacy_task {
                    "Upgrading from the previous version. Your apps, schedule and lock choices have been carried over."
                } else if completed {
                    "Welcome back. Your apps, schedule and lock choices were kept from your previous installation."
                } else {
                    "Your earlier setup was not finished. Pick up where you left off."
                };
                Opening::Setup { locked: completed, notice: Some(String::from_str(notice)) }
            }
        },
        None => {
            let notice = match read_error {
                Some(e) => {
                    let mut s = String::from_str(
                        "Your previous settings could not be read, so setup starts fresh. (",
                    );
                    s.append(e.as_str());
                    s.append(")");
                    Some(s)
                },
                None => None,
            };
            Opening::Setup { locked: false, notice }
        },
    }
}

/// A configuration's view, where there is one.
pub open spec fn config_view_of(c: Option<Config>) -> Option<ConfigView> {
    match c {
        Some(c) => Some(c@),
        None => None,
    }
}

/// The configuration that setup installs: the wizard's choices, marked as set up; except that
/// when the lock choices are kept from a previous installation they stay as they were, and so
/// do its schedule mode and days while its "change blocking hours" lock forbids a change now.
pub open spec fn installed_config_spec(
    draft: ConfigView,
    previous: Option<ConfigView>,
    locked: bool,
    now: Moment,
) -> ConfigView {
    match previous {
        Some(p) => if locked {
            let keep_schedule = !schedule_editable_spec(previous, locked, now);
            ConfigView {
                setup_completed: true,
                policies: p.policies,
                schedule_mode: if keep_schedule {
                    p.schedule_mode
                } else {
                    draft.schedule_mode
                },
                days: if keep_schedule {
                    p.days
                } else {
                    draft.days
                },
                ..draft
            }
        } else {
            ConfigView { setup_completed: true, ..draft }
        },
        None => ConfigView { setup_completed: true, ..draft },
    }
}

/// The configuration to install from the wizard's `draft`, the configuration of a previous
/// installation (if any), whether its lock choices are kept, and the time now.
pub fn installed_config(draft: Config, previous: Option<Config>, locked: bool, now: &Moment) -> (c:
    Config)
    requires
        now.wf(),
    ensures
        c@ == installed_config_spec(draft@, config_view_of(previous), locked, *now),
{
    let editable = schedule_editable(&previous, locked, now);
    let mut config = draft;
    match previous {
        Some(p) => {
            if locked {
                config.policies = p.policies;
                if !editable {
                    config.schedule_mode = p.schedule_mode;
                    config.days = p.days;
                }
            }
        },
        None => {},
    }
    config.setup_completed = true;
    config
}

/// Reinstalling over a previous installation whose lock choices are kept never loosens them:
/// the installed lock choices are the previous ones, and while changing the hours is not
/// allowed the installed schedule is the previous one too.
pub proof fn lemma_reinstall_keeps_locks(draft: ConfigView, previous: ConfigView, now: Moment)
    ensures
        installed_config_spec(draft, Some(previous), true, now).policies == previous.policies,
        !allowed(previous.policies.change_times, previous, now) ==> {
            &&& installed_config_spec(draft, Some(previous), true, now).days == previous.days
            &&& installed_config_spec(draft, Some(previous), true, now).schedule_mode
                == previous.schedule_mode
        },
        installed_config_spec(draft, Some(previous), true, now).executables == draft.executables,
        installed_config_spec(draft, Some(previous), true, now).setup_completed,
{
}

/// The setup choices saved while the wizard runs: the draft, with the lock choices kept from a
/// previous installation where they are kept; nothing while the draft fails the checks made
/// before the account is known (overlapping blocks, numbers out of range, invalid apps) or the
/// account is not known.
pub open spec fn setup_progress_spec(draft: ConfigView, previous: Option<ConfigView>, locked: bool) -> Option<
    ConfigView,
> {
    if crate::config::unsealed_problem(draft) is Some || !crate::config::is_sid(
        draft.target_user_sid,
    ) {
        None
    } else {
        match previous {
            Some(p) => if locked {
                Some(ConfigView { policies: p.policies, ..draft })
            } else {
                Some(draft)
            },
            None => Some(draft),
        }
    }
}

/// The setup progress to save from the wizard's `draft`, if there is one to save.
pub fn setup_progress(draft: Config, previous: &Option<Config>, locked: bool) -> (r: Option<Config>)
    requires
        draft.days@.wf(),
    ensures
        config_view_of(r) == setup_progress_spec(draft@, config_view_of(*previous), locked),
{
    if draft.validate_schedule().is_err() || !crate::config::is_valid_sid(
        draft.target_user_sid.as_str(),
    ) {
        return None;
    }
    let mut progress = draft;
    match previous {
        Some(p) => {
            if locked {
                progress.policies = p.policies;
            }
        },
        None => {},
    }
    Some(progress)
}

/// Whether two lists of blocks are the same.
fn same_blocks(a: &Vec<Block>, b: &Vec<Block>) -> (r: bool)
    ensures
        r == (a@ == b@),
{
    if a.len() != b.len() {
        return false;
    }
    for i in 0..a.len()
        invariant
            a@.len() == b@.len(),
            forall|j: int| 0 <= j < i ==> a@[j] == b@[j],
    {
        if a[i] != b[i] {
            return false;
        }
    }
    assert(a@ =~= b@);
    true
}

/// Whether two lanes are the same.
fn same_day(a: &DaySchedule, b: &DaySchedule) -> (r: bool)
    ensures
        r == (a@ == b@),
{
    a.enabled == b.enabled && same_blocks(&a.blocks, &b.blocks)
}

/// Whether two schedules are the same, lane by lane.
fn same_days(a: &Days, b: &Days) -> (r: bool)
    ensures
        r == (a@ == b@),
{
    same_day(&a.every_day, &b.every_day) && same_day(&a.weekday, &b.weekday) && same_day(
        &a.weekend,
        &b.weekend,
    ) && same_day(&a.monday, &b.monday) && same_day(&a.tuesday, &b.tuesday) && same_day(
        &a.wednesday,
        &b.wednesday,
    ) && same_day(&a.thursday, &b.thursday) && same_day(&a.friday, &b.friday) && same_day(
        &a.saturday,
        &b.saturday,
    ) && same_day(&a.sunday, &b.sunday)
}

/// Whether two lists of paths hold the same texts in the same order.
fn same_texts(a: &Vec<String>, b: &Vec<String>) -> (r: bool)
    ensures
        r == (texts(a@) == texts(b@)),
{
    if a.len() != b.len() {
        assert(texts(a@).len() != texts(b@).len());
        return false;
    }
    for i in 0..a.len()
        invariant
            a@.len() == b@.len(),
            forall|j: int| 0 <= j < i ==> texts(a@)[j] == texts(b@)[j],
    {
        if !same_text(a[i].as_str(), b[i].as_str()) {
            assert(texts(a@)[i as int] != texts(b@)[i as int]);
            return false;
        }
    }
    assert(texts(a@) =~= texts(b@));
    true
}

/// A copy of a list of blocks.
fn copy_blocks(v: &Vec<Block>) -> (r: Vec<Block>)
    ensures
        r@ == v@,
{
    let mut r: Vec<Block> = Vec::new();
    for i in 0..v.len()
        invariant
            r@ == v@.take(i as int),
    {
        r.push(v[i]);
        assert(v@.take(i + 1) == v@.take(i as int).push(v@[i as int]));
    }
    assert(v@.take(v@.len() as int) == v@);
    r
}

/// A copy of a lane.
fn copy_day(d: &DaySchedule) -> (r: DaySchedule)
    ensures
        r@ == d@,
{
    DaySchedule { enabled: d.enabled, blocks: copy_blocks(&d.blocks) }
}

/// A copy of a schedule.
pub fn copy_days(d: &Days) -> (r: Days)
    ensures
        r@ == d@,
{
    Days {
        every_day: copy_day(&d.every_day),
        weekday: copy_day(&d.weekday),
        weekend: copy_day(&d.weekend),
        monday: copy_day(&d.monday),
        tuesday: copy_day(&d.tuesday),
        wednesday: copy_day(&d.wednesday),
        thursday: copy_day(&d.thursday),
        friday: copy_day(&d.friday),
        saturday: copy_day(&d.saturday),
        sunday: copy_day(&d.sunday),
    }
}

/// A copy of a list of paths.
pub fn copy_texts(v: &Vec<String>) -> (r: Vec<String>)
    ensures
        texts(r@) == texts(v@),
{
    let mut r: Vec<String> = Vec::new();
    for i in 0..v.len()
        invariant
            texts(r@) == texts(v@).take(i as int),
    {
        let s = v[i].clone();
        let ghost before = r@;
        r.push(s);
        assert(texts(r@) =~= texts(before).push(v@[i as int]@));
        assert(texts(v@).take(i + 1) =~= texts(v@).take(i as int).push(v@[i as int]@));
    }
    assert(texts(v@).take(v@.len() as int) =~= texts(v@));
    r
}

/// What saving from the control panel writes, and whether the hours were saved too: the saved
/// configuration with the draft's apps, and with the draft's schedule when changing the hours
/// is allowed now. When it is and the draft fails the checks made before the account is known
/// (overlapping blocks, numbers out of range, invalid apps), nothing is saved.
pub open spec fn saved_changes_spec(saved: ConfigView, draft: ConfigView, now: Moment) -> Result<
    (ConfigView, bool),
    Seq<char>,
> {
    if allowed(saved.policies.change_times, saved, now) {
        match crate::config::unsealed_problem(draft) {
            Some(e) => Err(e),
            None => Ok(
                (
                    ConfigView {
                        executables: draft.executables,
                        schedule_mode: draft.schedule_mode,
                        days: draft.days,
                        ..saved
                    },
                    true,
                ),
            ),
        }
    } else {
        Ok((ConfigView { executables: draft.executables, ..saved }, false))
    }
}

/// The configuration to write when the control panel saves `draft` over `saved` at `now`,
/// with whether the hours were included.
pub fn saved_changes(saved: Config, draft: &Config, now: &Moment) -> (r: Result<(Config, bool), String>)
    requires
        now.wf(),
        draft.days@.wf(),
    ensures
        match (r, saved_changes_spec(saved@, draft@, *now)) {
            (Ok((c, hours)), Ok((v, h))) => c@ == v && hours == h,
            (Err(e), Err(m)) => e@ == m,
            _ => false,
        },
{
    let can_change_times = can_use(saved.policies.change_times, &saved, now);
    let mut next = saved;
    next.executables = copy_texts(&draft.executables);
    if can_change_times {
        match draft.validate_schedule() {
            Ok(()) => {},
            Err(e) => {
                return Err(e);
            },
        }
        next.schedule_mode = draft.schedule_mode;
        next.days = copy_days(&draft.days);
    }
    Ok((next, can_change_times))
}

/// Saving from the control panel changes only the apps and the hours: the lock choices, the
/// account and the preferences stay as saved, and the hours stay as saved while the "change
/// blocking hours" lock forbids a change now.
pub proof fn lemma_saving_respects_locks(saved: ConfigView, draft: ConfigView, now: Moment)
    ensures
        match saved_changes_spec(saved, draft, now) {
            Ok((c, hours)) => {
                &&& c.policies == saved.policies
                &&& c.target_user_sid == saved.target_user_sid
                &&& c.preferences == saved.preferences
                &&& c.executables == draft.executables
                &&& hours == allowed(saved.policies.change_times, saved, now)
                &&& !hours ==> c.days == saved.days && c.schedule_mode == saved.schedule_mode
            },
            Err(_) => allowed(saved.policies.change_times, saved, now),
        },
{
}

/// What saving new lock choices writes: the saved configuration with `locks`, when "change these
/// lock choices" allows it now; otherwise why not.
pub open spec fn saved_locks_spec(saved: ConfigView, locks: Policies, now: Moment) -> Result<ConfigView, Seq<char>> {
    if allowed(saved.policies.change_locks, saved, now) {
        Ok(ConfigView { policies: locks, ..saved })
    } else {
        Err(unavailable_text(saved.policies.change_locks, "Lock choices cannot be changed"@))
    }
}

/// The configuration to write when the settings save new lock choices over `saved` at `now`.
pub fn saved_locks(saved: Config, locks: Policies, now: &Moment) -> (r: Result<Config, String>)
    requires
        now.wf(),
    ensures
        match (r, saved_locks_spec(saved@, locks, *now)) {
            (Ok(c), Ok(v)) => c@ == v,
            (Err(e), Err(m)) => e@ == m,
            _ => false,
        },
{
    if !can_use(saved.policies.change_locks, &saved, now) {
        return Err(unavailable_message(saved.policies.change_locks, "Lock choices cannot be changed"));
    }
    let mut next = saved;
    next.policies = locks;
    Ok(next)
}

/// Lock choices change only while "change these lock choices" allows it: a locked choice of
/// "No — never" keeps every lock as it is for good, and nothing else changes with them.
pub proof fn lemma_locks_change_only_when_allowed(saved: ConfigView, locks: Policies, now: Moment)
    ensures
        saved_locks_spec(saved, locks, now) is Ok <==> allowed(saved.policies.change_locks, saved, now),
        saved.policies.change_locks == Policy::Never ==> saved_locks_spec(saved, locks, now) is Err,
        match saved_locks_spec(saved, locks, now) {
            Ok(c) => c.policies == locks && c.days == saved.days && c.executables == saved.executables,
            Err(_) => true,
        },
{
}

/// Whether `path` is among `picked` and names an executable as the block list requires.
pub open spec fn is_valid_pick(picked: Seq<String>, path: Seq<char>) -> bool {
    &&& exists|m: int| #![trigger picked[m]] 0 <= m < picked.len() && picked[m]@ == path
    &&& crate::config::executable_check(path) is None
}

/// Which picked paths name an executable as the block list requires.
pub open spec fn valid_picks(picked: Seq<String>) -> Seq<bool> {
    picked.map_values(|p: String| crate::config::executable_check(p@) is None)
}

/// Adds each picked program to the block list, unless its path is not a valid executable path
/// or the list already has it.
pub fn add_picked(executables: &mut Vec<String>, picked: &[String])
    ensures
        final(executables)@.len() <= old(executables)@.len() + picked@.len(),
        forall|i: int| 0 <= i < old(executables)@.len() ==> final(executables)@[i] == old(executables)@[i],
        forall|i: int|
            old(executables)@.len() <= i < final(executables)@.len() ==> is_valid_pick(
                picked@,
                #[trigger] final(executables)@[i]@,
            ),
        appended_unless_listed(
            texts(old(executables)@),
            texts(final(executables)@),
            texts(picked@),
            valid_picks(picked@),
        ),
{
    let ghost start = executables@;
    let ghost paths = texts(picked@);
    let ghost eligible = valid_picks(picked@);
    let ghost mut keep: Seq<bool> = Seq::empty();
    for k in 0..picked.len()
        invariant
            paths == texts(picked@),
            eligible == valid_picks(picked@),
            start.len() <= executables@.len() <= start.len() + k,
            keep.len() == k,
            texts(executables@) == texts(start) + kept_upto(paths, keep, k as nat),
            forall|j: int| 0 <= j < k && #[trigger] keep[j] ==> eligible[j],
            forall|j: int|
                0 <= j < k && eligible[j] && !#[trigger] keep[j] ==> may_be_listed(
                    texts(start) + kept_upto(paths, keep, j as nat),
                    paths[j],
                ),
            forall|i: int| 0 <= i < start.len() ==> executables@[i] == start[i],
            forall|i: int|
                start.len() <= i < executables@.len() ==> is_valid_pick(
                    picked@,
                    #[trigger] executables@[i]@,
                ),
    {
        let mut kept_now = false;
        if crate::config::validate_executable(picked[k].as_str()).is_ok() {
            let mut present = false;
            for j in 0..executables.len()
                invariant
                    k < picked@.len(),
                    present ==> may_be_listed(texts(executables@), picked@[k as int]@),
            {
                if crate::paths::same_path(executables[j].as_str(), picked[k].as_str()) {
                    assert(texts(executables@)[j as int] == executables@[j as int]@);
                    present = true;
                }
            }
            if !present {
                let p = picked[k].clone();
                let ghost before = executables@;
                executables.push(p);
                proof {
                    assert(is_valid_pick(picked@, picked@[k as int]@));
                    assert forall|i: int|
                        start.len() <= i < executables@.len() implies is_valid_pick(
                            picked@,
                            #[trigger] executables@[i]@,
                        ) by {
                        if i < before.len() {
                            assert(executables@[i] == before[i]);
                        }
                    }
                    assert(texts(executables@) =~= texts(before).push(picked@[k as int]@));
                }
                kept_now = true;
            }
        }
        proof {
            let nk = keep.push(kept_now);
            assert forall|j: int| 0 <= j <= k implies #[trigger] kept_upto(paths, nk, j as nat)
                == kept_upto(paths, keep, j as nat) by {
                lemma_kept_upto_extend(paths, keep, kept_now, j as nat);
            }
            assert(paths[k as int] == picked@[k as int]@);
            assert(eligible[k as int] == (crate::config::executable_check(picked@[k as int]@) is None));
            assert(nk[k as int] == kept_now);
            lemma_kept_upto_extend(paths, keep, kept_now, k as nat);
            assert(kept_upto(paths, nk, (k + 1) as nat) == if kept_now {
                kept_upto(paths, keep, k as nat).push(paths[k as int])
            } else {
                kept_upto(paths, keep, k as nat)
            });
            assert forall|j: int| 0 <= j < k + 1 && #[trigger] nk[j] implies eligible[j] by {
                if j < k {
                    assert(nk[j] == keep[j]);
                }
            }
            assert forall|j: int|
                0 <= j < k + 1 && eligible[j] && !#[trigger] nk[j] implies may_be_listed(
                    texts(start) + kept_upto(paths, nk, j as nat),
                    paths[j],
                ) by {
                assert(kept_upto(paths, nk, j as nat) == kept_upto(paths, keep, j as nat));
                if j < k {
                    assert(nk[j] == keep[j]);
                }
            }
            keep = nk;
        }
    }
    proof {
        assert(keep.len() == paths.len());
    }
}

/// Whether `ns` and `ps` are what normalising each selected and each protected path may give.
pub open spec fn removal_by(
    selection: Seq<Seq<char>>,
    protected: Seq<Seq<char>>,
    ns: Seq<Option<Seq<char>>>,
    ps: Seq<Option<Seq<char>>>,
) -> bool {
    normalize_outcomes(selection, ns) && normalize_outcomes(protected, ps)
}

/// Whether some selected path has the compared form of a protected one.
pub open spec fn shares_protected(ns: Seq<Option<Seq<char>>>, ps: Seq<Option<Seq<char>>>) -> bool {
    exists|i: int, j: int|
        0 <= i < ns.len() && 0 <= j < ps.len() && #[trigger] ns[i] is Some && ns[i] == #[trigger] ps[j]
}

/// Decides, from the compared forms, whether a selected path is a protected one.
pub fn any_protected(selection: &[Option<String>], protected: &[Option<String>]) -> (r: bool)
    ensures
        r == shares_protected(opt_texts(selection@), opt_texts(protected@)),
{
    let ghost ns = opt_texts(selection@);
    let ghost ps = opt_texts(protected@);
    for i in 0..selection.len()
        invariant
            ns == opt_texts(selection@),
            ps == opt_texts(protected@),
            forall|a: int, b: int|
                0 <= a < i && 0 <= b < ps.len() ==> !(#[trigger] ns[a] is Some && ns[a] == #[trigger] ps[b]),
    {
        match &selection[i] {
            Some(x) => {
                for j in 0..protected.len()
                    invariant
                        ns == opt_texts(selection@),
                        ps == opt_texts(protected@),
                        i < ns.len(),
                        ns[i as int] == Some(x@),
                        forall|a: int, b: int|
                            0 <= a < i && 0 <= b < ps.len() ==> !(#[trigger] ns[a] is Some && ns[a]
                                == #[trigger] ps[b]),
                        forall|b: int| 0 <= b < j ==> #[trigger] ps[b] != Some(x@),
                {
                    match &protected[j] {
                        Some(y) => {
                            if same_text(x.as_str(), y.as_str()) {
                                assert(ps[j as int] == Some(y@));
                                return true;
                            }
                            assert(ps[j as int] == Some(y@));
                        },
                        None => {
                            assert(ps[j as int] == None::<Seq<char>>);
                        },
                    }
                }
            },
            None => {
                assert(ns[i as int] == None::<Seq<char>>);
            },
        }
    }
    false
}

/// Whether removing the selected apps is refused: the "remove apps" lock does not allow it now
/// and a selected app is one that was saved on the list (taken as the same file once
/// normalised).
pub fn removal_blocked(can_remove_protected: bool, selection: &[String], protected: &[String]) -> (r:
    bool)
    ensures
        can_remove_protected ==> !r,
        exists|ns: Seq<Option<Seq<char>>>, ps: Seq<Option<Seq<char>>>|
            #[trigger] removal_by(texts(selection@), texts(protected@), ns, ps) && r == (
            !can_remove_protected && shares_protected(ns, ps)),
{
    if can_remove_protected {
        proof {
            let sv = texts(selection@);
            let pv = texts(protected@);
            lemma_nothing_normalized(sv);
            lemma_nothing_normalized(pv);
            assert(removal_by(
                sv,
                pv,
                Seq::new(sv.len(), |i: int| None::<Seq<char>>),
                Seq::new(pv.len(), |i: int| None::<Seq<char>>),
            ));
        }
        return false;
    }
    let ns = normalize_all(selection);
    let ps = normalize_all(protected);
    let r = any_protected(&ns, &ps);
    proof {
        assert(removal_by(texts(selection@), texts(protected@), opt_texts(ns@), opt_texts(ps@)));
    }
    r
}

/// Whether the draft holds edits that are not saved: its apps, schedule mode or days differ
/// from the saved configuration's.
pub open spec fn is_dirty_spec(saved: Option<ConfigView>, draft: ConfigView) -> bool {
    match saved {
        Some(s) => s.executables != draft.executables || s.days != draft.days || s.schedule_mode
            != draft.schedule_mode,
        None => false,
    }
}

pub fn is_dirty(saved: &Option<Config>, draft: &Config) -> (r: bool)
    ensures
        r == is_dirty_spec(config_view_of(*saved), draft@),
{
    match saved {
        Some(s) => !same_texts(&s.executables, &draft.executables) || !same_days(&s.days, &draft.days)
            || s.schedule_mode != draft.schedule_mode,
        None => false,
    }
}

/// What a request to close the window does.
#[derive(Clone, Copy, Debug, PartialEq, Eq, Structural)]
pub enum Closing {
    /// Stays open until the running operation finishes.
    Wait,
    /// Saves the setup choices, then closes.
    SaveProgress,
    /// Asks whether to discard unsaved changes.
    ConfirmDiscard,
    /// Closes.
    Close,
}

/// The window is closing: while an operation runs it waits; during setup the choices are saved
/// first; with unsaved changes in the control panel it asks; otherwise it closes.
pub fn closing(job_running: bool, in_setup: bool, dirty: bool) -> (r: Closing)
    ensures
        r == if job_running {
            Closing::Wait
        } else if in_setup {
            Closing::SaveProgress
        } else if dirty {
            Closing::ConfirmDiscard
        } else {
            Closing::Close
        },
{
    if job_running {
        Closing::Wait
    } else if in_setup {
        Closing::SaveProgress
    } else if dirty {
        Closing::ConfirmDiscard
    } else {
        Closing::Close
    }
}

/// Clicking an app in the list: it leaves the selection if it was in it (its first occurrence),
/// else joins it at the end.
pub fn toggle_selection(selected: &mut Vec<String>, path: &str)
    ensures
        match first_text_index(old(selected)@, path@) {
            Some(i) => final(selected)@ == old(selected)@.remove(i),
            None => final(selected)@.len() == old(selected)@.len() + 1
                && final(selected)@.drop_last() == old(selected)@
                && final(selected)@.last()@ == path@,
        },
{
    let n = selected.len();
    for i in 0..n
        invariant
            n == selected@.len(),
            selected@ == old(selected)@,
            forall|j: int| 0 <= j < i ==> #[trigger] selected@[j]@ != path@,
    {
        if crate::config::same_text(selected[i].as_str(), path) {
            proof {
                assert(is_first_text_index(selected@, path@, i as int));
                lemma_first_text_index(selected@, path@, i as int);
            }
            selected.remove(i);
            return;
        }
    }
    proof {
        lemma_no_text_index(selected@, path@);
    }
    selected.push(String::from_str(path));
}

/// `i` is where the first string with the text `t` stands.
pub open spec fn is_first_text_index(s: Seq<String>, t: Seq<char>, i: int) -> bool {
    0 <= i < s.len() && s[i]@ == t && forall|j: int| 0 <= j < i ==> #[trigger] s[j]@ != t
}

/// Where the first string with the text `t` stands, if any.
pub open spec fn first_text_index(s: Seq<String>, t: Seq<char>) -> Option<int> {
    if exists|i: int| is_first_text_index(s, t, i) {
        Some(choose|i: int| is_first_text_index(s, t, i))
    } else {
        None
    }
}

proof fn lemma_first_text_index(s: Seq<String>, t: Seq<char>, i: int)
    requires
        is_first_text_index(s, t, i),
    ensures
        first_text_index(s, t) == Some(i),
{
    let k = choose|k: int| is_first_text_index(s, t, k);
    assert(is_first_text_index(s, t, k));
    if k < i {
        assert(s[k]@ != t);
    }
    if i < k {
        assert(s[i]@ != t);
    }
}

proof fn lemma_no_text_index(s: Seq<String>, t: Seq<char>)
    requires
        forall|j: int| 0 <= j < s.len() ==> #[trigger] s[j]@ != t,
    ensures
        first_text_index(s, t) is None,
{
}

/// Removing the selected apps: every entry of the block list equal to a selected one goes; the
/// others stay in order.
pub fn remove_selected(executables: &mut Vec<String>, selection: &[String])
    ensures
        final(executables)@.map_values(|e: String| e@) == old(executables)@.map_values(|e: String| e@).filter(
            |p: Seq<char>| !selection@.map_values(|e: String| e@).contains(p),
        ),
{
    let ghost sel = selection@.map_values(|e: String| e@);
    let ghost ev = executables@.map_values(|e: String| e@);
    let mut kept: Vec<String> = Vec::new();
    let n = executables.len();
    for i in 0..n
        invariant
            n == executables@.len(),
            ev == executables@.map_values(|e: String| e@),
            ev == old(executables)@.map_values(|e: String| e@),
            sel == selection@.map_values(|e: String| e@),
            kept@.map_values(|e: String| e@) == ev.take(i as int).filter(|p: Seq<char>| !sel.contains(p)),
    {
        let mut chosen = false;
        for j in 0..selection.len()
            invariant
                i < n,
                n == executables@.len(),
                sel == selection@.map_values(|e: String| e@),
                chosen == exists|k: int| 0 <= k < j && #[trigger] sel[k] == executables@[i as int]@,
        {
            if crate::config::same_text(selection[j].as_str(), executables[i].as_str()) {
                chosen = true;
            }
            assert(sel[j as int] == selection@[j as int]@);
        }
        proof {
            assert(ev[i as int] == executables@[i as int]@);
            if chosen {
                let k = choose|k: int| 0 <= k < selection@.len() && #[trigger] sel[k] == executables@[i as int]@;
                assert(sel.contains(ev[i as int]));
            } else {
                assert(!sel.contains(ev[i as int])) by {
                    if sel.contains(ev[i as int]) {
                        let k = choose|k: int| 0 <= k < sel.len() && sel[k] == ev[i as int];
                        assert(sel[k] == executables@[i as int]@);
                    }
                }
            }
            assert(ev.take(i + 1) == ev.take(i as int).push(ev[i as int]));
            ev.take(i as int).lemma_filter_push(ev[i as int], |p: Seq<char>| !sel.contains(p));
        }
        if !chosen {
            let e = executables[i].clone();
            let ghost before = kept@;
            kept.push(e);
            assert(kept@.map_values(|e: String| e@) =~= before.map_values(|e: String| e@).push(ev[i as int]));
        }
    }
    assert(ev.take(n as int) == ev);
    *executables = kept;
}

/// Turning protection on is always allowed, whatever the lock choices and the time, once there
/// is an app to block.
pub proof fn lemma_turning_on_always_allowed(config: ConfigView, now: Moment)
    requires
        config.executables.len() > 0,
    ensures
        protection_request_spec(config, now, false) == Ok::<ProtectionRequest, Seq<char>>(ProtectionRequest::TurnOn),
{
}

} // verus!
