//! The decisions of the background monitor that Task Scheduler starts as SYSTEM: what to do in
//! each round, how long to wait, and which running processes to close.
use crate::config::{eq_ignore_ascii_case, eq_ignore_ascii_case_exec, Config, ConfigView};
use crate::notify::{due, due_spec};
use crate::paths::is_configured;
use crate::schedule::{is_blocked, is_blocked_spec, Moment, LAST_DAY};
use crate::text::{chars_of, decimal, push_decimal, trim};
use vstd::prelude::*;
use vstd::string::*;

verus! {

broadcast use vstd::string::group_string_axioms;

/// A running process, as the process list reports it.
pub struct ProcessInfo {
    pub pid: u32,
    pub name: String,
}

/// What the monitor does in one round.
pub enum Round {
    /// Close the configured apps.
    Enforce,
    /// Show the heads-up for the block starting at `start`.
    Notify { start: Moment, title: String, message: String },
    /// Nothing to do.
    Idle,
}

/// One round of the monitor: while blocking is active, close the apps; otherwise show the
/// heads-up when one is due.
pub fn decide_round(config: &Config, now: &Moment, notified_for: Option<Moment>) -> (r: Round)
    requires
        now.wf(),
        now.day + 9 <= LAST_DAY,
    ensures
        is_blocked_spec(config@, *now) ==> r is Enforce,
        !is_blocked_spec(config@, *now) ==> match due_spec(config@, *now, notified_for) {
            Some((s, t, m)) => r matches Round::Notify { start, title, message } && start == s
                && title@ == t && message@ == m,
            None => r is Idle,
        },
{
    if is_blocked(config, now) {
        return Round::Enforce;
    }
    match due(config, now, notified_for) {
        Some((start, title, message)) => Round::Notify { start, title, message },
        None => Round::Idle,
    }
}

/// Seconds to wait before the next round: the configured interval brought into 1–60, or 5 while
/// no valid configuration has been read.
pub fn check_interval(config: Option<&Config>) -> (r: u32)
    ensures
        match config {
            Some(c) => r == (if c.check_interval_seconds < 1 {
                1
            } else if c.check_interval_seconds > 60 {
                60
            } else {
                c.check_interval_seconds
            }),
            None => r == 5,
        },
{
    match config {
        Some(c) => {
            if c.check_interval_seconds < 1 {
                1
            } else if c.check_interval_seconds > 60 {
                60
            } else {
                c.check_interval_seconds
            }
        },
        None => 5,
    }
}

/// Whether a process is looked at at all: not the system's own (PIDs up to 4) and not the
/// monitor itself.
pub fn should_inspect(info: &ProcessInfo, own_pid: u32) -> (r: bool)
    ensures
        r == (info.pid > 4 && info.pid != own_pid),
{
    info.pid > 4 && info.pid != own_pid
}

/// Whether a process belongs to the protected user (its owner's SID, compared without regard to
/// ASCII case).
pub fn owned_by_target(config: &Config, owner_sid: Option<&str>) -> (r: bool)
    ensures
        r == (owner_sid matches Some(s) && eq_ignore_ascii_case(s@, config@.target_user_sid)),
{
    match owner_sid {
        Some(s) => {
            let a = chars_of(s);
            let b = chars_of(config.target_user_sid.as_str());
            eq_ignore_ascii_case_exec(&a, &b)
        },
        None => false,
    }
}

/// Whether a process is to be closed: one of the configured programs, run by the protected user.
pub fn is_target(config: &Config, image_path: Option<&str>, owner_sid: Option<&str>) -> (r: bool)
    ensures
        r ==> (owner_sid matches Some(s) && eq_ignore_ascii_case(s@, config@.target_user_sid)),
        r ==> (image_path matches Some(p) && trim(p@).len() > 0),
        config@.executables.len() == 0 ==> !r,
        exists|np: Option<Seq<char>>, ns: Seq<Option<Seq<char>>>|
            #[trigger] crate::paths::configured_by(
                crate::paths::opt_str(image_path),
                config@.executables,
                np,
                ns,
            ) && r == (crate::paths::configured_spec(np, ns) && (owner_sid matches Some(s)
                && eq_ignore_ascii_case(s@, config@.target_user_sid))),
{
    let configured = is_configured(image_path, config.executables.as_slice());
    let ghost (np, ns) = choose|np: Option<Seq<char>>, ns: Seq<Option<Seq<char>>>|
        #[trigger] crate::paths::configured_by(
            crate::paths::opt_str(image_path),
            crate::config::texts(config.executables@),
            np,
            ns,
        ) && configured == crate::paths::configured_spec(np, ns);
    assert(crate::paths::configured_by(
        crate::paths::opt_str(image_path),
        config@.executables,
        np,
        ns,
    ));
    if !configured {
        return false;
    }
    owned_by_target(config, owner_sid)
}

/// `name (PID pid)`.
pub open spec fn process_label(name: Seq<char>, pid: nat) -> Seq<char> {
    name + " (PID "@ + decimal(pid) + ")"@
}

fn push_process_label(s: &mut String, name: &str, pid: u32)
    ensures
        final(s)@ == old(s)@ + process_label(name@, pid as nat),
{
    s.append(name);
    s.append(" (PID ");
    push_decimal(s, pid as u64);
    s.append(")");
}

/// What the monitor does with a process it is to close.
pub enum StopAction {
    /// Only report it (`--dry-run`).
    Report,
    /// It cannot be closed: report that access was denied.
    Denied,
    /// Close it.
    Terminate,
}

pub fn stop_action(dry_run: bool, can_terminate: bool) -> (r: StopAction)
    ensures
        dry_run ==> r is Report,
        !dry_run && !can_terminate ==> r is Denied,
        !dry_run && can_terminate ==> r is Terminate,
{
    if dry_run {
        StopAction::Report
    } else if !can_terminate {
        StopAction::Denied
    } else {
        StopAction::Terminate
    }
}

pub fn would_stop_message(name: &str, pid: u32) -> (r: String)
    ensures
        r@ == "Would stop "@ + process_label(name@, pid as nat),
{
    let mut s = String::from_str("Would stop ");
    push_process_label(&mut s, name, pid);
    s
}

pub fn stopped_message(name: &str, pid: u32) -> (r: String)
    ensures
        r@ == "Stopped "@ + process_label(name@, pid as nat),
{
    let mut s = String::from_str("Stopped ");
    push_process_label(&mut s, name, pid);
    s
}

pub fn denied_message(name: &str, pid: u32) -> (r: String)
    ensures
        r@ == "Could not stop "@ + process_label(name@, pid as nat) + ": access denied"@,
{
    let mut s = String::from_str("Could not stop ");
    push_process_label(&mut s, name, pid);
    s.append(": access denied");
    s
}

pub fn stop_failed_message(name: &str, pid: u32, error: &str) -> (r: String)
    ensures
        r@ == "Could not stop "@ + process_label(name@, pid as nat) + ": "@ + error@,
{
    let mut s = String::from_str("Could not stop ");
    push_process_label(&mut s, name, pid);
    s.append(": ");
    s.append(error);
    s
}

/// The monitor's options: `--once` runs a single round, `--dry-run` only reports what it would
/// close, `--config <path>` reads another configuration file.
pub struct MonitorOptions {
    pub once: bool,
    pub dry_run: bool,
    pub config_path: Option<String>,
}

/// `i` is the first `--config` among the arguments.
pub open spec fn first_config_flag(args: Seq<String>, i: int) -> bool {
    &&& 0 <= i < args.len()
    &&& args[i]@ == "--config"@
    &&& forall|j: int| 0 <= j < i ==> args[j]@ != "--config"@
}

/// Reads the monitor's options from its arguments (those after `--monitor`).
pub fn parse_options(args: &[String]) -> (r: MonitorOptions)
    ensures
        r.once == exists|i: int| 0 <= i < args@.len() && args@[i]@ == "--once"@,
        r.dry_run == exists|i: int| 0 <= i < args@.len() && args@[i]@ == "--dry-run"@,
        match r.config_path {
            Some(p) => exists|i: int|
                #[trigger] first_config_flag(args@, i) && i + 1 < args@.len() && p@ == args@[i + 1]@,
            None => forall|i: int| #[trigger] first_config_flag(args@, i) ==> i + 1 >= args@.len(),
        },
{
    let mut once = false;
    let mut dry_run = false;
    let mut config_at: Option<usize> = None;
    let n = args.len();
    for i in 0..n
        invariant
            n == args@.len(),
            once == exists|k: int| 0 <= k < i && args@[k]@ == "--once"@,
            dry_run == exists|k: int| 0 <= k < i && args@[k]@ == "--dry-run"@,
            match config_at {
                Some(c) => c < i && args@[c as int]@ == "--config"@ && forall|j: int|
                    0 <= j < c ==> args@[j]@ != "--config"@,
                None => forall|j: int| 0 <= j < i ==> args@[j]@ != "--config"@,
            },
    {
        let a = args[i].as_str();
        if crate::config::same_text(a, "--once") {
            once = true;
        }
        if crate::config::same_text(a, "--dry-run") {
            dry_run = true;
        }
        if config_at.is_none() && crate::config::same_text(a, "--config") {
            config_at = Some(i);
        }
    }
    let config_path = match config_at {
        Some(c) => {
            proof {
                assert forall|i: int| #[trigger] first_config_flag(args@, i) implies i == c by {
                    if i < c {
                        assert(args@[i]@ != "--config"@);
                    }
                    if c < i {
                        assert(args@[c as int]@ != "--config"@);
                    }
                }
                assert(first_config_flag(args@, c as int));
            }
            if c + 1 < n {
                Some(args[c + 1].clone())
            } else {
                None
            }
        },
        None => {
            assert forall|i: int| #[trigger] first_config_flag(args@, i) implies i + 1 >= args@.len() by {
                assert(args@[i]@ != "--config"@);
            }
            None
        },
    };
    MonitorOptions { once, dry_run, config_path }
}

/// A line for the monitor's log, at the error level or not.
pub struct LogEntry {
    pub error: bool,
    pub message: String,
}

/// What the log says after a heads-up: only that it would be shown (`--dry-run`); that it could
/// not be shown, with why; or that it was shown.
pub fn notify_report(dry_run: bool, outcome: &Result<(), String>, title: &str) -> (r: LogEntry)
    ensures
        dry_run ==> !r.error && r.message@ == "Would notify: "@ + title@,
        !dry_run ==> match outcome {
            Err(e) => r.error && r.message@ == "Could not show the notification: "@ + e@,
            Ok(_) => !r.error && r.message@ == "Notified: "@ + title@,
        },
{
    if dry_run {
        let mut s = String::from_str("Would notify: ");
        s.append(title);
        return LogEntry { error: false, message: s };
    }
    match outcome {
        Err(e) => {
            let mut s = String::from_str("Could not show the notification: ");
            s.append(e.as_str());
            LogEntry { error: true, message: s }
        },
        Ok(_) => {
            let mut s = String::from_str("Notified: ");
            s.append(title);
            LogEntry { error: false, message: s }
        },
    }
}

/// The error logged when the running processes cannot be listed.
pub fn list_failed_message(error: &str) -> (r: String)
    ensures
        r@ == "Could not list running processes: "@ + error@,
{
    let mut s = String::from_str("Could not list running processes: ");
    s.append(error);
    s
}

/// Whether the monitor gives up (exit code 1) when the settings cannot be read: only in a single
/// round (`--once`) that has no earlier valid settings to keep enforcing.
pub fn gives_up(once: bool, has_valid_settings: bool) -> (r: bool)
    ensures
        r == (once && !has_valid_settings),
{
    once && !has_valid_settings
}

} // verus!
