//! Installing, upgrading and uninstalling: what the steps decide. The program lives in
//! `C:\Program Files\Windows App Blocker` and is removed on uninstall; settings live in
//! `C:\ProgramData\WindowsAppBlocker` and are kept.
use crate::config::ascii_lower;
use crate::task::TaskInfo;
use crate::text::{chars_of, contains_text};
use vstd::prelude::*;
use vstd::string::*;

verus! {

broadcast use vstd::string::group_string_axioms;

/// Whether a task runs the previous PowerShell-based version.
pub open spec fn runs_powershell(t: TaskInfo) -> bool {
    contains_text(t.command@.map_values(|c: char| ascii_lower(c)), "powershell"@)
}

/// Files left in the data folder by the PowerShell-based version.
pub fn legacy_files() -> (r: [&'static str; 5])
    ensures
        r@.map_values(|f: &'static str| f@) == seq![
            "AppBlocker.Common.ps1"@,
            "AppBlockerMonitor.ps1"@,
            "Install-AppBlocker.ps1"@,
            "Uninstall-AppBlocker.ps1"@,
            "Windows App Blocker.exe"@,
        ],
{
    let r = [
        "AppBlocker.Common.ps1",
        "AppBlockerMonitor.ps1",
        "Install-AppBlocker.ps1",
        "Uninstall-AppBlocker.ps1",
        "Windows App Blocker.exe",
    ];
    assert(r@.map_values(|f: &'static str| f@) =~= seq![
        "AppBlocker.Common.ps1"@,
        "AppBlockerMonitor.ps1"@,
        "Install-AppBlocker.ps1"@,
        "Uninstall-AppBlocker.ps1"@,
        "Windows App Blocker.exe"@,
    ]);
    r
}

/// Whether this version is installed: its program is in place and the task it registers exists
/// (not one left by the PowerShell-based version).
pub fn is_installed(program_is_file: bool, task: &Option<TaskInfo>) -> (r: bool)
    ensures
        r == (program_is_file && (task matches Some(t) && !runs_powershell(*t))),
{
    match task {
        Some(t) => program_is_file && !t.is_legacy(),
        None => false,
    }
}

/// Whether an upgrade turns protection back on at its end: it was on, in a task of this version.
pub fn should_restore_protection(task: &Option<TaskInfo>) -> (r: bool)
    ensures
        r == (task matches Some(t) && t.enabled && !runs_powershell(*t)),
{
    match task {
        Some(t) => t.enabled && !t.is_legacy(),
        None => false,
    }
}

/// The file name of the Start menu and desktop shortcuts.
pub fn shortcut_file_name() -> (r: &'static str)
    ensures
        r@ == "Windows App Blocker.lnk"@,
{
    "Windows App Blocker.lnk"
}

/// The `icacls.exe` arguments that secure the settings folder: SYSTEM and administrators keep
/// full control, other users may only read.
pub fn secure_directory_arguments(dir: &str) -> (r: Vec<String>)
    ensures
        r@.map_values(|s: String| s@) == seq![
            dir@,
            "/inheritance:r"@,
            "/grant:r"@,
            "*S-1-5-18:(OI)(CI)F"@,
            "*S-1-5-32-544:(OI)(CI)F"@,
            "*S-1-5-32-545:(OI)(CI)RX"@,
        ],
{
    let mut r: Vec<String> = Vec::new();
    r.push(String::from_str(dir));
    r.push(String::from_str("/inheritance:r"));
    r.push(String::from_str("/grant:r"));
    r.push(String::from_str("*S-1-5-18:(OI)(CI)F"));
    r.push(String::from_str("*S-1-5-32-544:(OI)(CI)F"));
    r.push(String::from_str("*S-1-5-32-545:(OI)(CI)RX"));
    assert(r@.map_values(|s: String| s@) =~= seq![
        dir@,
        "/inheritance:r"@,
        "/grant:r"@,
        "*S-1-5-18:(OI)(CI)F"@,
        "*S-1-5-32-544:(OI)(CI)F"@,
        "*S-1-5-32-545:(OI)(CI)RX"@,
    ]);
    r
}

/// Whether uninstalling may remove a folder, from its compared form (see
/// [`crate::paths::normalize`]): only one that ends in `\windows app blocker`.
pub fn is_expected_program_dir(normalized: Option<&str>) -> (r: bool)
    ensures
        r == (normalized matches Some(p) && p@.len() >= "\\windows app blocker"@.len()
            && p@.subrange(p@.len() - "\\windows app blocker"@.len(), p@.len() as int)
            == "\\windows app blocker"@),
{
    match normalized {
        Some(p) => {
            let c = chars_of(p);
            let suffix = chars_of("\\windows app blocker");
            let n = c.len();
            let m = suffix.len();
            if n < m {
                return false;
            }
            let mut i: usize = 0;
            while i < m
                invariant
                    n == c@.len(),
                    m == suffix@.len(),
                    m <= n,
                    i <= m,
                    c@ == p@,
                    normalized == Some(p),
                    suffix@ == "\\windows app blocker"@,
                    forall|j: int| 0 <= j < i ==> c@[n - m + j] == suffix@[j],
                decreases m - i,
            {
                if c[n - m + i] != suffix[i] {
                    assert(p@.subrange(n - m, n as int)[i as int] != suffix@[i as int]);
                    return false;
                }
                i = i + 1;
            }
            assert(p@.subrange(n - m, n as int) =~= suffix@);
            true
        },
        None => false,
    }
}

/// The `cmd.exe` line of the helper that removes the program folder once this program has
/// exited: it retries for about 20 seconds.
pub open spec fn cleanup_command_text(dir: Seq<char>) -> Seq<char> {
    "for /l %i in (1,1,20) do (if exist \""@ + dir + "\" (ping -n 2 127.0.0.1 >nul & rmdir /s /q \""@
        + dir + "\"))"@
}

pub fn cleanup_command(dir: &str) -> (r: String)
    ensures
        r@ == cleanup_command_text(dir@),
{
    let mut s = String::from_str("for /l %i in (1,1,20) do (if exist \"");
    s.append(dir);
    s.append("\" (ping -n 2 127.0.0.1 >nul & rmdir /s /q \"");
    s.append(dir);
    s.append("\"))");
    s
}

} // verus!
