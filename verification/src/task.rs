//! The `WindowsAppBlocker` scheduled task: its definition, and what a query of it reports.
//! Protection is on when the task is enabled.
use crate::config::{ascii_lower, ascii_lower_char};
use crate::notify::map_chars;
use crate::text::{
    chars_of, contains_text, contains_text_exec, find_text, occurs_at, push_char, string_of,
    subrange_chars, trim, trim_chars,
};
use vstd::prelude::*;
use vstd::string::*;

verus! {

broadcast use vstd::string::group_string_axioms;

#[derive(Clone, Debug, PartialEq, Eq)]
pub struct TaskInfo {
    pub enabled: bool,
    pub command: String,
}

impl TaskInfo {
    /// Whether the task was registered by the previous PowerShell-based version.
    pub fn is_legacy(&self) -> (r: bool)
        ensures
            r == contains_text(self.command@.map_values(|c: char| ascii_lower(c)), "powershell"@),
    {
        let chars = chars_of(self.command.as_str());
        let mut lower: Vec<char> = Vec::new();
        for i in 0..chars.len()
            invariant
                chars@ == self.command@,
                lower@ == chars@.take(i as int).map_values(|c: char| ascii_lower(c)),
        {
            lower.push(ascii_lower_char(chars[i]));
            assert(lower@ =~= chars@.take(i + 1).map_values(|c: char| ascii_lower(c)));
        }
        assert(chars@.take(chars@.len() as int) == chars@);
        let needle = chars_of("powershell");
        contains_text_exec(&lower, &needle)
    }
}

/// `i` is where `t` first occurs in `s` at or after `from`.
pub open spec fn is_first_occurrence(s: Seq<char>, t: Seq<char>, from: int, i: int) -> bool {
    &&& from <= i
    &&& occurs_at(s, t, i)
    &&& forall|j: int| from <= j < i ==> !occurs_at(s, t, j)
}

/// Where `t` first occurs in `s` at or after `from` (`str::find` on `s[from..]`).
pub open spec fn first_occurrence(s: Seq<char>, t: Seq<char>, from: int) -> Option<int> {
    if exists|i: int| is_first_occurrence(s, t, from, i) {
        Some(choose|i: int| is_first_occurrence(s, t, from, i))
    } else {
        None
    }
}

pub proof fn lemma_first_occurrence(s: Seq<char>, t: Seq<char>, from: int, i: int)
    requires
        is_first_occurrence(s, t, from, i),
    ensures
        first_occurrence(s, t, from) == Some(i),
{
    let k = choose|k: int| is_first_occurrence(s, t, from, k);
    assert(is_first_occurrence(s, t, from, k));
    if k < i {
        assert(!occurs_at(s, t, k));
    }
    if i < k {
        assert(!occurs_at(s, t, i));
    }
}

pub fn first_occurrence_exec(s: &[char], t: &[char], from: usize) -> (r: Option<usize>)
    ensures
        match r {
            Some(i) => first_occurrence(s@, t@, from as int) == Some(i as int) && is_first_occurrence(
                s@,
                t@,
                from as int,
                i as int,
            ),
            None => first_occurrence(s@, t@, from as int) is None,
        },
{
    match find_text(s, t, from) {
        Some(i) => {
            proof {
                lemma_first_occurrence(s@, t@, from as int, i as int);
            }
            Some(i)
        },
        None => {
            assert forall|i: int| !is_first_occurrence(s@, t@, from as int, i) by {}
            None
        },
    }
}

/// The text between the first `<name>` and the first `</name>` after it, trimmed.
pub open spec fn element_spec(xml: Seq<char>, name: Seq<char>) -> Option<Seq<char>> {
    let open = "<"@ + name + ">"@;
    let close = "</"@ + name + ">"@;
    match first_occurrence(xml, open, 0) {
        None => None,
        Some(o) => {
            let start = o + open.len();
            match first_occurrence(xml, close, start) {
                None => None,
                Some(end) => Some(trim(xml.subrange(start, end))),
            }
        },
    }
}

/// The text of the first `name` element in `xml`.
pub fn element(xml: &str, name: &str) -> (r: Option<String>)
    ensures
        crate::config::opt_text(r) == element_spec(xml@, name@),
{
    let x = chars_of(xml);
    let mut open = String::from_str("<");
    open.append(name);
    open.append(">");
    let mut close = String::from_str("</");
    close.append(name);
    close.append(">");
    let oc = chars_of(open.as_str());
    let cc = chars_of(close.as_str());
    let o = match first_occurrence_exec(&x, &oc, 0) {
        Some(o) => o,
        None => {
            return None;
        },
    };
    let xn = x.len();
    assert(o + oc@.len() <= xn);
    let start = o + oc.len();
    let end = match first_occurrence_exec(&x, &cc, start) {
        Some(e) => e,
        None => {
            return None;
        },
    };
    let inner = subrange_chars(&x, start, end);
    let trimmed = trim_chars(&inner);
    Some(string_of(&trimmed))
}

/// `s` without leading and trailing `"`s (`trim_matches('"')`).
pub open spec fn trim_quotes_start(s: Seq<char>) -> Seq<char>
    decreases s.len(),
{
    if s.len() > 0 && s[0] == '"' {
        trim_quotes_start(s.drop_first())
    } else {
        s
    }
}

pub open spec fn trim_quotes_end(s: Seq<char>) -> Seq<char>
    decreases s.len(),
{
    if s.len() > 0 && s.last() == '"' {
        trim_quotes_end(s.drop_last())
    } else {
        s
    }
}

pub open spec fn trim_quotes(s: Seq<char>) -> Seq<char> {
    trim_quotes_end(trim_quotes_start(s))
}

pub fn trim_quotes_exec(s: &str) -> (r: String)
    ensures
        r@ == trim_quotes(s@),
{
    let c = chars_of(s);
    let n = c.len();
    let mut i: usize = 0;
    assert(c@.subrange(0, n as int) == c@);
    while i < n && c[i] == '"'
        invariant
            i <= n,
            n == c@.len(),
            trim_quotes_start(c@) == trim_quotes_start(c@.subrange(i as int, n as int)),
        decreases n - i,
    {
        assert(c@.subrange(i as int, n as int).drop_first() == c@.subrange(i + 1, n as int));
        i = i + 1;
    }
    let rest = subrange_chars(&c, i, n);
    assert(trim_quotes_start(rest@) == rest@);
    let mut k: usize = rest.len();
    assert(rest@.subrange(0, k as int) == rest@);
    while k > 0 && rest[k - 1] == '"'
        invariant
            k <= rest@.len(),
            trim_quotes_end(rest@) == trim_quotes_end(rest@.subrange(0, k as int)),
        decreases k,
    {
        assert(rest@.subrange(0, k as int).drop_last() == rest@.subrange(0, k - 1));
        k = k - 1;
    }
    let out = subrange_chars(&rest, 0, k);
    proof {
        if out@.len() > 0 {
            assert(out@.last() == rest@[k - 1]);
        }
        assert(trim_quotes_end(out@) == out@);
    }
    string_of(&out)
}

/// What a query of the task reports, from the task's XML definition: whether it is enabled
/// (unless its `Settings` say `false`, it is) and the program it runs, without quotes.
pub open spec fn task_info_spec(xml: Seq<char>) -> (bool, Seq<char>) {
    let settings = match element_spec(xml, "Settings"@) {
        Some(s) => s,
        None => Seq::empty(),
    };
    let enabled = match element_spec(settings, "Enabled"@) {
        Some(v) => v != "false"@,
        None => true,
    };
    let command = match element_spec(xml, "Command"@) {
        Some(c) => trim_quotes(c),
        None => Seq::empty(),
    };
    (enabled, command)
}

/// Reads what a query reports from the task's XML definition.
pub fn task_info_from_xml(xml: &str) -> (r: TaskInfo)
    ensures
        (r.enabled, r.command@) == task_info_spec(xml@),
{
    let settings = match element(xml, "Settings") {
        Some(s) => s,
        None => String::new(),
    };
    let enabled = match element(settings.as_str(), "Enabled") {
        Some(v) => !crate::config::same_text(v.as_str(), "false"),
        None => true,
    };
    let command = match element(xml, "Command") {
        Some(c) => trim_quotes_exec(c.as_str()),
        None => String::new(),
    };
    TaskInfo { enabled, command }
}

/// `c` written so that it can stand in the task's XML.
pub open spec fn escape_char(c: char) -> Seq<char> {
    if c == '&' {
        "&amp;"@
    } else if c == '<' {
        "&lt;"@
    } else if c == '>' {
        "&gt;"@
    } else if c == '"' {
        "&quot;"@
    } else {
        seq![c]
    }
}

pub open spec fn escape_spec(s: Seq<char>) -> Seq<char> {
    map_chars(s, |c: char| escape_char(c))
}

/// `text` with `&`, `<`, `>` and `"` written as entities.
pub fn escape(text: &str) -> (r: String)
    ensures
        r@ == escape_spec(text@),
{
    let chars = chars_of(text);
    let mut out = String::new();
    for i in 0..chars.len()
        invariant
            chars@ == text@,
            out@ == map_chars(chars@.take(i as int), |c: char| escape_char(c)),
    {
        let c = chars[i];
        proof {
            crate::notify::lemma_map_chars_push(chars@, i as int, |c: char| escape_char(c));
        }
        if c == '&' {
            out.append("&amp;");
        } else if c == '<' {
            out.append("&lt;");
        } else if c == '>' {
            out.append("&gt;");
        } else if c == '"' {
            out.append("&quot;");
        } else {
            push_char(&mut out, c);
        }
    }
    assert(chars@.take(chars@.len() as int) == chars@);
    out
}

/// The definition before the signed-in user's SID.
pub open spec fn task_head() -> Seq<char> {
    "<?xml version=\"1.0\" encoding=\"UTF-16\"?>\n<Task version=\"1.2\" xmlns=\"http://schemas.microsoft.com/windows/2004/02/mit/task\">\n  <RegistrationInfo>\n    <Description>Blocks selected Windows applications during configured hours.</Description>\n  </RegistrationInfo>\n  <Triggers>\n    <BootTrigger><Enabled>true</Enabled></BootTrigger>\n    <LogonTrigger><Enabled>true</Enabled><UserId>"@
}

/// The definition between the SID and the program's path: runs as SYSTEM, starts at boot and at
/// the user's sign-in, is created disabled and restarts after failures.
pub open spec fn task_middle() -> Seq<char> {
    "</UserId></LogonTrigger>\n  </Triggers>\n  <Principals>\n    <Principal id=\"Author\">\n      <UserId>S-1-5-18</UserId>\n      <RunLevel>HighestAvailable</RunLevel>\n    </Principal>\n  </Principals>\n  <Settings>\n    <MultipleInstancesPolicy>IgnoreNew</MultipleInstancesPolicy>\n    <DisallowStartIfOnBatteries>false</DisallowStartIfOnBatteries>\n    <StopIfGoingOnBatteries>false</StopIfGoingOnBatteries>\n    <AllowHardTerminate>true</AllowHardTerminate>\n    <StartWhenAvailable>true</StartWhenAvailable>\n    <IdleSettings>\n      <StopOnIdleEnd>false</StopOnIdleEnd>\n      <RestartOnIdle>false</RestartOnIdle>\n    </IdleSettings>\n    <AllowStartOnDemand>true</AllowStartOnDemand>\n    <Enabled>false</Enabled>\n    <Hidden>true</Hidden>\n    <ExecutionTimeLimit>PT0S</ExecutionTimeLimit>\n    <Priority>7</Priority>\n    <RestartOnFailure>\n      <Interval>PT1M</Interval>\n      <Count>3</Count>\n    </RestartOnFailure>\n  </Settings>\n  <Actions Context=\"Author\">\n    <Exec>\n      <Command>\""@
}

/// The end of the definition: the program runs with `--monitor`.
pub open spec fn task_tail() -> Seq<char> {
    "\"</Command>\n      <Arguments>--monitor</Arguments>\n    </Exec>\n  </Actions>\n</Task>\n"@
}

pub open spec fn task_xml_spec(exe: Seq<char>, target_user_sid: Seq<char>) -> Seq<char> {
    task_head() + escape_spec(target_user_sid) + task_middle() + escape_spec(exe) + task_tail()
}

/// The task's XML definition for the installed program and the user it protects.
pub fn task_xml(exe: &str, target_user_sid: &str) -> (r: String)
    ensures
        r@ == task_xml_spec(exe@, target_user_sid@),
{
    let mut s = String::from_str("<?xml version=\"1.0\" encoding=\"UTF-16\"?>\n<Task version=\"1.2\" xmlns=\"http://schemas.microsoft.com/windows/2004/02/mit/task\">\n  <RegistrationInfo>\n    <Description>Blocks selected Windows applications during configured hours.</Description>\n  </RegistrationInfo>\n  <Triggers>\n    <BootTrigger><Enabled>true</Enabled></BootTrigger>\n    <LogonTrigger><Enabled>true</Enabled><UserId>");
    let sid = escape(target_user_sid);
    s.append(sid.as_str());
    s.append("</UserId></LogonTrigger>\n  </Triggers>\n  <Principals>\n    <Principal id=\"Author\">\n      <UserId>S-1-5-18</UserId>\n      <RunLevel>HighestAvailable</RunLevel>\n    </Principal>\n  </Principals>\n  <Settings>\n    <MultipleInstancesPolicy>IgnoreNew</MultipleInstancesPolicy>\n    <DisallowStartIfOnBatteries>false</DisallowStartIfOnBatteries>\n    <StopIfGoingOnBatteries>false</StopIfGoingOnBatteries>\n    <AllowHardTerminate>true</AllowHardTerminate>\n    <StartWhenAvailable>true</StartWhenAvailable>\n    <IdleSettings>\n      <StopOnIdleEnd>false</StopOnIdleEnd>\n      <RestartOnIdle>false</RestartOnIdle>\n    </IdleSettings>\n    <AllowStartOnDemand>true</AllowStartOnDemand>\n    <Enabled>false</Enabled>\n    <Hidden>true</Hidden>\n    <ExecutionTimeLimit>PT0S</ExecutionTimeLimit>\n    <Priority>7</Priority>\n    <RestartOnFailure>\n      <Interval>PT1M</Interval>\n      <Count>3</Count>\n    </RestartOnFailure>\n  </Settings>\n  <Actions Context=\"Author\">\n    <Exec>\n      <Command>\"");
    let e = escape(exe);
    s.append(e.as_str());
    s.append("\"</Command>\n      <Arguments>--monitor</Arguments>\n    </Exec>\n  </Actions>\n</Task>\n");
    s
}

/// An operation on the task, each one run of `schtasks.exe`.
#[derive(Clone, Copy, Debug, PartialEq, Eq, Structural)]
pub enum TaskAction {
    /// Reports the task's XML definition.
    Query,
    /// Registers (or replaces) the task from an XML file.
    Create,
    /// Stops the task if it is running.
    End,
    /// Turns protection on.
    Enable,
    /// Starts the task now.
    Run,
    /// Turns protection off.
    Disable,
    /// Removes the task.
    Delete,
}

/// The `schtasks.exe` arguments of `action`; `xml_file` is the definition that `Create` reads.
pub open spec fn arguments_spec(action: TaskAction, xml_file: Seq<char>) -> Seq<Seq<char>> {
    match action {
        TaskAction::Query => seq!["/Query"@, "/TN"@, "WindowsAppBlocker"@, "/XML"@],
        TaskAction::Create => seq!["/Create"@, "/TN"@, "WindowsAppBlocker"@, "/XML"@, xml_file, "/F"@],
        TaskAction::End => seq!["/End"@, "/TN"@, "WindowsAppBlocker"@],
        TaskAction::Enable => seq!["/Change"@, "/TN"@, "WindowsAppBlocker"@, "/ENABLE"@],
        TaskAction::Run => seq!["/Run"@, "/TN"@, "WindowsAppBlocker"@],
        TaskAction::Disable => seq!["/Change"@, "/TN"@, "WindowsAppBlocker"@, "/DISABLE"@],
        TaskAction::Delete => seq!["/Delete"@, "/TN"@, "WindowsAppBlocker"@, "/F"@],
    }
}

/// The text of each string.
pub open spec fn texts(v: Seq<String>) -> Seq<Seq<char>> {
    v.map_values(|s: String| s@)
}

fn strings(parts: &[&str]) -> (r: Vec<String>)
    ensures
        texts(r@) == parts@.map_values(|p: &str| p@),
{
    let mut r: Vec<String> = Vec::new();
    for i in 0..parts.len()
        invariant
            r@.len() == i,
            texts(r@) == parts@.take(i as int).map_values(|p: &str| p@),
    {
        let ghost before = r@;
        let part = String::from_str(parts[i]);
        r.push(part);
        assert forall|j: int| 0 <= j < i + 1 implies #[trigger] texts(r@)[j] == parts@.take(i + 1).map_values(|p: &str| p@)[j] by {
            if j < i {
                assert(texts(before)[j] == parts@.take(i as int).map_values(|p: &str| p@)[j]);
            }
        }
        assert(texts(r@) =~= parts@.take(i + 1).map_values(|p: &str| p@));
    }
    assert(parts@.take(parts@.len() as int) == parts@);
    r
}

/// The `schtasks.exe` arguments of `action`.
pub fn task_arguments(action: TaskAction, xml_file: &str) -> (r: Vec<String>)
    ensures
        texts(r@) == arguments_spec(action, xml_file@),
{
    let r = match action {
        TaskAction::Query => strings(&["/Query", "/TN", "WindowsAppBlocker", "/XML"]),
        TaskAction::Create => strings(&["/Create", "/TN", "WindowsAppBlocker", "/XML", xml_file, "/F"]),
        TaskAction::End => strings(&["/End", "/TN", "WindowsAppBlocker"]),
        TaskAction::Enable => strings(&["/Change", "/TN", "WindowsAppBlocker", "/ENABLE"]),
        TaskAction::Run => strings(&["/Run", "/TN", "WindowsAppBlocker"]),
        TaskAction::Disable => strings(&["/Change", "/TN", "WindowsAppBlocker", "/DISABLE"]),
        TaskAction::Delete => strings(&["/Delete", "/TN", "WindowsAppBlocker", "/F"]),
    };
    assert(texts(r@) =~= arguments_spec(action, xml_file@));
    r
}

/// What a run of `schtasks.exe` gives: its output when it succeeded; otherwise its error output,
/// trimmed, or its output, trimmed, when the error output is blank.
pub open spec fn outcome_spec(success: bool, stdout: Seq<char>, stderr: Seq<char>) -> Result<Seq<char>, Seq<char>> {
    if success {
        Ok(stdout)
    } else if trim(stderr).len() == 0 {
        Err(trim(stdout))
    } else {
        Err(trim(stderr))
    }
}

/// The result of a run of `schtasks.exe`, from whether it succeeded and what it printed.
pub fn command_outcome(success: bool, stdout: &str, stderr: &str) -> (r: Result<String, String>)
    ensures
        match r {
            Ok(o) => outcome_spec(success, stdout@, stderr@) == Ok::<Seq<char>, Seq<char>>(o@),
            Err(e) => outcome_spec(success, stdout@, stderr@) == Err::<Seq<char>, Seq<char>>(e@),
        },
{
    if success {
        return Ok(String::from_str(stdout));
    }
    let err = trim_chars(&chars_of(stderr));
    if err.len() == 0 {
        Err(string_of(&trim_chars(&chars_of(stdout))))
    } else {
        Err(string_of(&err))
    }
}

/// What a query reports: nothing when `schtasks.exe /Query` failed (the task does not exist),
/// else what its XML says.
pub fn query(outcome: &Result<String, String>) -> (r: Option<TaskInfo>)
    ensures
        match outcome {
            Ok(xml) => r matches Some(t) && (t.enabled, t.command@) == task_info_spec(xml@),
            Err(_) => r is None,
        },
{
    match outcome {
        Ok(xml) => Some(task_info_from_xml(xml.as_str())),
        Err(_) => None,
    }
}

/// What a failure of `action` is reported as, before the detail: none for a query or a stop,
/// whose failures are not reported.
pub open spec fn failure_prefix(action: TaskAction) -> Option<Seq<char>> {
    match action {
        TaskAction::Create => Some("Could not register the background task: "@),
        TaskAction::Enable => Some("Could not turn protection on: "@),
        TaskAction::Run => Some("Could not start the background task: "@),
        TaskAction::Disable => Some("Could not turn protection off: "@),
        TaskAction::Delete => Some("Could not remove the background task: "@),
        TaskAction::Query | TaskAction::End => None,
    }
}

/// The message reporting that `action` failed with `detail`.
pub fn failure_message(action: TaskAction, detail: &str) -> (r: Option<String>)
    ensures
        match failure_prefix(action) {
            Some(p) => r matches Some(m) && m@ == p + detail@,
            None => r is None,
        },
{
    let prefix = match action {
        TaskAction::Create => "Could not register the background task: ",
        TaskAction::Enable => "Could not turn protection on: ",
        TaskAction::Run => "Could not start the background task: ",
        TaskAction::Disable => "Could not turn protection off: ",
        TaskAction::Delete => "Could not remove the background task: ",
        TaskAction::Query | TaskAction::End => {
            return None;
        },
    };
    let mut m = String::from_str(prefix);
    m.append(detail);
    Some(m)
}

} // verus!
