//! Setup-time choices that decide which controls stay available later.
use crate::config::{Config, ConfigView, Policies, Policy};
use crate::schedule::{is_blocked, is_blocked_spec, Moment};
use vstd::prelude::*;
use vstd::string::*;

verus! {

/// Whether a control locked by `policy` may be used at `now`.
pub open spec fn allowed(policy: Policy, config: ConfigView, now: Moment) -> bool {
    match policy {
        Policy::Always => true,
        Policy::Never => false,
        Policy::AllowedHoursOnly => !is_blocked_spec(config, now),
    }
}

pub fn can_use(policy: Policy, config: &Config, now: &Moment) -> (r: bool)
    requires
        now.wf(),
    ensures
        r == allowed(policy, config@, *now),
{
    match policy {
        Policy::Always => true,
        Policy::Never => false,
        Policy::AllowedHoursOnly => !is_blocked(config, now),
    }
}

pub open spec fn display_text(policy: Policy) -> Seq<char> {
    match policy {
        Policy::Always => "anytime"@,
        Policy::Never => "never"@,
        Policy::AllowedHoursOnly => "allowed hours only"@,
    }
}

pub fn display(policy: Policy) -> (r: &'static str)
    ensures
        r@ == display_text(policy),
{
    match policy {
        Policy::Always => "anytime",
        Policy::Never => "never",
        Policy::AllowedHoursOnly => "allowed hours only",
    }
}

pub open spec fn choice_text(policy: Policy) -> Seq<char> {
    match policy {
        Policy::Always => "Yes — anytime"@,
        Policy::Never => "No — never"@,
        Policy::AllowedHoursOnly => "Only during allowed hours"@,
    }
}

pub fn choice_label(policy: Policy) -> (r: &'static str)
    ensures
        r@ == choice_text(policy),
{
    match policy {
        Policy::Always => "Yes — anytime",
        Policy::Never => "No — never",
        Policy::AllowedHoursOnly => "Only during allowed hours",
    }
}

/// The choices offered for each lock, in display order.
pub fn options() -> (r: [(Policy, &'static str); 3])
    ensures
        r@.len() == 3,
        r@[0].0 == Policy::Always && r@[0].1@ == choice_text(Policy::Always),
        r@[1].0 == Policy::Never && r@[1].1@ == choice_text(Policy::Never),
        r@[2].0 == Policy::AllowedHoursOnly && r@[2].1@ == choice_text(Policy::AllowedHoursOnly),
{
    [
        (Policy::Always, choice_label(Policy::Always)),
        (Policy::Never, choice_label(Policy::Never)),
        (Policy::AllowedHoursOnly, choice_label(Policy::AllowedHoursOnly)),
    ]
}

/// Each lock choice with its label and a hint, in display order.
pub fn rows(p: &mut Policies) -> (r: [(&'static str, &'static str, &mut Policy); 5])
    ensures
        r@[0].0@ == "Change blocking hours"@ && r@[0].1@ == "Edit the timeline after setup."@,
        r@[1].0@ == "Turn protection off"@ && r@[1].1@ == "Turning protection on is always allowed."@,
        r@[2].0@ == "Uninstall this app"@ && r@[2].1@ == "Your settings are kept either way."@,
        r@[3].0@ == "Remove apps from the block list"@ && r@[3].1@
            == "Adding apps is always allowed."@,
        r@[4].0@ == "Change these lock choices"@ && r@[4].1@ == "Edit them later from Settings."@,
        *r@[0].2 == old(p).change_times,
        *r@[1].2 == old(p).turn_off,
        *r@[2].2 == old(p).uninstall,
        *r@[3].2 == old(p).remove_executables,
        *r@[4].2 == old(p).change_locks,
        *final(p) == (Policies {
            change_times: *final(r@[0].2),
            turn_off: *final(r@[1].2),
            uninstall: *final(r@[2].2),
            remove_executables: *final(r@[3].2),
            change_locks: *final(r@[4].2),
        }),
{
    [
        ("Change blocking hours", "Edit the timeline after setup.", &mut p.change_times),
        ("Turn protection off", "Turning protection on is always allowed.", &mut p.turn_off),
        ("Uninstall this app", "Your settings are kept either way.", &mut p.uninstall),
        (
            "Remove apps from the block list",
            "Adding apps is always allowed.",
            &mut p.remove_executables,
        ),
        ("Change these lock choices", "Edit them later from Settings.", &mut p.change_locks),
    ]
}

pub open spec fn unavailable_text(policy: Policy, subject: Seq<char>) -> Seq<char> {
    if policy == Policy::Never {
        subject + " because you chose ‘No — never’ during setup."@
    } else {
        subject + " during blocked hours. Try again during allowed hours."@
    }
}

/// Why a locked control cannot be used right now.
pub fn unavailable_message(policy: Policy, subject: &str) -> (r: String)
    ensures
        r@ == unavailable_text(policy, subject@),
{
    let mut s = String::from_str(subject);
    if policy == Policy::Never {
        s.append(" because you chose ‘No — never’ during setup.");
    } else {
        s.append(" during blocked hours. Try again during allowed hours.");
    }
    s
}

} // verus!
