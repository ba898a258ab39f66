//! Heads-up notifications shown shortly before a block starts.
//!
//! Toasts are raised by a hidden Windows PowerShell running as the signed-in user, under this
//! app's own name (registered in the user's `HKCU\Software\Classes\AppUserModelId`). This module
//! decides when one is due and writes the script and the command line that show it.
use crate::config::{Config, ConfigView};
use crate::schedule::{first_change, next_change, Moment, LAST_DAY};
use crate::text::{chars_of, decimal, push_char, push_chars, push_decimal, string_of, trim, trim_chars};
use crate::time::{format_hhmm, hhmm_text};
use vstd::prelude::*;
use vstd::string::*;

verus! {

broadcast use vstd::string::group_string_axioms;

/// The whole seconds from `earlier` to `later` (`TimeDelta::num_seconds` of their difference):
/// the exact difference, rounded toward zero.
pub open spec fn whole_seconds_between(earlier: Moment, later: Moment) -> int {
    let d = later.seconds() - earlier.seconds();
    let n = later.nano - earlier.nano;
    if d > 0 && n < 0 {
        d - 1
    } else if d < 0 && n > 0 {
        d + 1
    } else {
        d
    }
}

pub fn seconds_between(earlier: &Moment, later: &Moment) -> (r: i64)
    requires
        earlier.wf(),
        later.wf(),
    ensures
        r == whole_seconds_between(*earlier, *later),
{
    let d: i64 = (later.day as i64 - earlier.day as i64) * 86400 + (later.second as i64
        - earlier.second as i64);
    let n: i64 = later.nano as i64 - earlier.nano as i64;
    if d > 0 && n < 0 {
        d - 1
    } else if d < 0 && n > 0 {
        d + 1
    } else {
        d
    }
}

pub open spec fn title_text(minutes: nat) -> Seq<char> {
    "Blocking starts in "@ + decimal(minutes) + " minute"@ + if minutes == 1 {
        ""@
    } else {
        "s"@
    }
}

pub open spec fn message_text(start: Moment) -> Seq<char> {
    "Your blocked apps will be closed at "@ + hhmm_text(start.minute() as nat) + ". Save your work."@
}

/// The notification due at `now`, if one is: the block start, the title and the message. It is
/// due when the heads-up is on, some app is blocked, and the next change (a block starting) is at
/// most `notify_minutes` ahead, once per start.
pub open spec fn due_spec(config: ConfigView, now: Moment, already_sent_for: Option<Moment>) -> Option<
    (Moment, Seq<char>, Seq<char>),
> {
    if !config.preferences.notify_before_block || config.executables.len() == 0 {
        None
    } else {
        match first_change(config, now) {
            None => None,
            Some(start) => {
                let seconds = whole_seconds_between(now, start);
                if seconds <= 0 || seconds > config.preferences.notify_minutes * 60
                    || already_sent_for == Some(start) {
                    None
                } else {
                    let minutes = ((seconds + 59) / 60) as nat;
                    Some((start, title_text(minutes), message_text(start)))
                }
            },
        }
    }
}

/// A heads-up is given once per block: once sent for a start, none is due for it again.
pub proof fn lemma_heads_up_once(config: ConfigView, now: Moment, start: Moment)
    requires
        due_spec(config, now, None) matches Some(d) && d.0 == start,
    ensures
        due_spec(config, now, Some(start)) is None,
{
}

/// A heads-up sent earlier withholds only the heads-up for the same block start: whatever was
/// sent for another start (yesterday's block, say), what is due is what would be due had nothing
/// been sent; and when nothing would be due, nothing is.
pub proof fn lemma_sent_withholds_only_its_start(config: ConfigView, now: Moment, sent: Option<Moment>)
    ensures
        due_spec(config, now, None) is None ==> due_spec(config, now, sent) is None,
        (due_spec(config, now, None) matches Some(d) && sent != Some(d.0)) ==> due_spec(config, now, sent)
            == due_spec(config, now, None),
{
}

/// While apps are allowed, a heads-up announces the start of blocking: at its moment, apps are
/// blocked.
pub proof fn lemma_heads_up_announces_a_block(config: ConfigView, now: Moment, sent: Option<Moment>)
    requires
        !crate::schedule::is_blocked_spec(config, now),
    ensures
        due_spec(config, now, sent) matches Some(d) ==> crate::schedule::is_blocked_spec(config, d.0),
{
    if due_spec(config, now, sent) is Some {
        let m = choose|m: int| crate::schedule::first_change_after(config, now, m);
        assert(crate::schedule::first_change_after(config, now, m));
    }
}

pub open spec fn due_view(r: Option<(Moment, String, String)>) -> Option<(Moment, Seq<char>, Seq<char>)> {
    match r {
        Some((s, t, m)) => Some((s, t@, m@)),
        None => None,
    }
}

/// The notification due at `now`, if one is: `(block start, title, message)`.
pub fn due(config: &Config, now: &Moment, already_sent_for: Option<Moment>) -> (r: Option<
    (Moment, String, String),
>)
    requires
        now.wf(),
        now.day + 9 <= LAST_DAY,
    ensures
        due_view(r) == due_spec(config@, *now, already_sent_for),
{
    let prefs = &config.preferences;
    if !prefs.notify_before_block || config.executables.len() == 0 {
        return None;
    }
    let start = match next_change(config, now) {
        Some(s) => s,
        None => {
            return None;
        },
    };
    let seconds = seconds_between(now, &start);
    let sent = match already_sent_for {
        Some(s) => s == start,
        None => false,
    };
    if seconds <= 0 || seconds > prefs.notify_minutes as i64 * 60 || sent {
        return None;
    }
    let minutes: i64 = (seconds + 59) / 60;
    let mut title = String::from_str("Blocking starts in ");
    push_decimal(&mut title, minutes as u64);
    title.append(" minute");
    if minutes != 1 {
        title.append("s");
    }
    proof {
        reveal_strlit("");
    }
    let mut message = String::from_str("Your blocked apps will be closed at ");
    let clock = format_hhmm((start.second / 60) as u16);
    message.append(clock.as_str());
    message.append(". Save your work.");
    Some((start, title, message))
}

/// `c` written so that it can stand in XML text or an attribute.
pub open spec fn xml_escape_char(c: char) -> Seq<char> {
    if c == '&' {
        "&amp;"@
    } else if c == '<' {
        "&lt;"@
    } else if c == '>' {
        "&gt;"@
    } else if c == '"' {
        "&quot;"@
    } else if c == '\'' {
        "&apos;"@
    } else {
        seq![c]
    }
}

/// `s` with every character replaced by what `f` gives for it.
pub open spec fn map_chars(s: Seq<char>, f: spec_fn(char) -> Seq<char>) -> Seq<char>
    decreases s.len(),
{
    if s.len() == 0 {
        Seq::empty()
    } else {
        map_chars(s.drop_last(), f) + f(s.last())
    }
}

pub proof fn lemma_map_chars_push(s: Seq<char>, i: int, f: spec_fn(char) -> Seq<char>)
    requires
        0 <= i < s.len(),
    ensures
        map_chars(s.take(i + 1), f) == map_chars(s.take(i), f) + f(s[i]),
{
    assert(s.take(i + 1).drop_last() == s.take(i));
    assert(s.take(i + 1).last() == s[i]);
}

pub open spec fn xml_escape_spec(s: Seq<char>) -> Seq<char> {
    map_chars(s, |c: char| xml_escape_char(c))
}

/// `text` written so that it can stand in XML: `&`, `<`, `>`, `"` and `'` as entities.
pub fn xml_escape(text: &str) -> (r: String)
    ensures
        r@ == xml_escape_spec(text@),
{
    let chars = chars_of(text);
    let mut out = String::new();
    for i in 0..chars.len()
        invariant
            chars@ == text@,
            out@ == map_chars(chars@.take(i as int), |c: char| xml_escape_char(c)),
    {
        let c = chars[i];
        proof {
            lemma_map_chars_push(chars@, i as int, |c: char| xml_escape_char(c));
        }
        if c == '&' {
            out.append("&amp;");
        } else if c == '<' {
            out.append("&lt;");
        } else if c == '>' {
            out.append("&gt;");
        } else if c == '"' {
            out.append("&quot;");
        } else if c == '\'' {
            out.append("&apos;");
        } else {
            push_char(&mut out, c);
        }
    }
    assert(chars@.take(chars@.len() as int) == chars@);
    out
}

/// A single quote doubled, as PowerShell's single-quoted strings want it.
pub open spec fn quote_char(c: char) -> Seq<char> {
    if c == '\'' {
        seq!['\'', '\'']
    } else {
        seq![c]
    }
}

pub fn double_single_quotes(text: &str) -> (r: String)
    ensures
        r@ == map_chars(text@, |c: char| quote_char(c)),
{
    let chars = chars_of(text);
    let mut out = String::new();
    for i in 0..chars.len()
        invariant
            chars@ == text@,
            out@ == map_chars(chars@.take(i as int), |c: char| quote_char(c)),
    {
        let c = chars[i];
        proof {
            lemma_map_chars_push(chars@, i as int, |c: char| quote_char(c));
        }
        if c == '\'' {
            push_char(&mut out, '\'');
            push_char(&mut out, '\'');
        } else {
            push_char(&mut out, c);
        }
    }
    assert(chars@.take(chars@.len() as int) == chars@);
    out
}

/// The toast's XML: the title and the message as its two lines, with the reminder sound.
pub open spec fn toast_xml(title: Seq<char>, message: Seq<char>) -> Seq<char> {
    "<toast><visual><binding template=\"ToastGeneric\"><text>"@ + xml_escape_spec(title)
        + "</text><text>"@ + xml_escape_spec(message)
        + "</text></binding></visual><audio src=\"ms-winsoundevent:Notification.Reminder\"/></toast>"@
}

/// The lines of the script before the toast's XML: register this app's name for notifications
/// and load the Windows notification types.
pub open spec fn script_head() -> Seq<char> {
    "$ErrorActionPreference = 'Stop'\n$key = 'HKCU:\\Software\\Classes\\AppUserModelId\\WindowsAppBlocker'\nNew-Item -Path $key -Force | Out-Null\nSet-ItemProperty -Path $key -Name DisplayName -Value 'Windows App Blocker'\n[Windows.UI.Notifications.ToastNotificationManager, Windows.UI.Notifications, ContentType = WindowsRuntime] | Out-Null\n[Windows.Data.Xml.Dom.XmlDocument, Windows.Data.Xml.Dom.XmlDocument, ContentType = WindowsRuntime] | Out-Null\n$xml = New-Object Windows.Data.Xml.Dom.XmlDocument\n$xml.LoadXml('"@
}

/// The rest of the script: show the toast under this app's name.
pub open spec fn script_tail() -> Seq<char> {
    "')\n[Windows.UI.Notifications.ToastNotificationManager]::CreateToastNotifier('WindowsAppBlocker').Show([Windows.UI.Notifications.ToastNotification]::new($xml))\n"@
}

pub open spec fn toast_script_spec(title: Seq<char>, message: Seq<char>) -> Seq<char> {
    script_head() + map_chars(toast_xml(title, message), |c: char| quote_char(c)) + script_tail()
}

/// The PowerShell script that shows a toast with this title and message.
pub fn toast_script(title: &str, message: &str) -> (r: String)
    ensures
        r@ == toast_script_spec(title@, message@),
{
    let mut xml = String::from_str("<toast><visual><binding template=\"ToastGeneric\"><text>");
    let t = xml_escape(title);
    xml.append(t.as_str());
    xml.append("</text><text>");
    let m = xml_escape(message);
    xml.append(m.as_str());
    xml.append(
        "</text></binding></visual><audio src=\"ms-winsoundevent:Notification.Reminder\"/></toast>",
    );
    let mut script = String::from_str(
        "$ErrorActionPreference = 'Stop'\n$key = 'HKCU:\\Software\\Classes\\AppUserModelId\\WindowsAppBlocker'\nNew-Item -Path $key -Force | Out-Null\nSet-ItemProperty -Path $key -Name DisplayName -Value 'Windows App Blocker'\n[Windows.UI.Notifications.ToastNotificationManager, Windows.UI.Notifications, ContentType = WindowsRuntime] | Out-Null\n[Windows.Data.Xml.Dom.XmlDocument, Windows.Data.Xml.Dom.XmlDocument, ContentType = WindowsRuntime] | Out-Null\n$xml = New-Object Windows.Data.Xml.Dom.XmlDocument\n$xml.LoadXml('",
    );
    let quoted = double_single_quotes(xml.as_str());
    script.append(quoted.as_str());
    script.append(
        "')\n[Windows.UI.Notifications.ToastNotificationManager]::CreateToastNotifier('WindowsAppBlocker').Show([Windows.UI.Notifications.ToastNotification]::new($xml))\n",
    );
    script
}

/// The UTF-16 code units of a character, little end first, as bytes.
pub open spec fn utf16_le_char(c: char) -> Seq<u8> {
    let v = c as u32;
    if v < 0x10000 {
        seq![(v % 256) as u8, (v / 256) as u8]
    } else {
        let w = (v - 0x10000) as int;
        let high = 0xD800 + w / 1024;
        let low = 0xDC00 + w % 1024;
        seq![(high % 256) as u8, (high / 256) as u8, (low % 256) as u8, (low / 256) as u8]
    }
}

/// `s` as UTF-16 in little-endian bytes (`encode_utf16` then `to_le_bytes` of each unit).
pub open spec fn utf16_le(s: Seq<char>) -> Seq<u8>
    decreases s.len(),
{
    if s.len() == 0 {
        Seq::empty()
    } else {
        utf16_le(s.drop_last()) + utf16_le_char(s.last())
    }
}

pub fn utf16_le_bytes(text: &str) -> (r: Vec<u8>)
    ensures
        r@ == utf16_le(text@),
{
    let chars = chars_of(text);
    let mut out: Vec<u8> = Vec::new();
    for i in 0..chars.len()
        invariant
            chars@ == text@,
            out@ == utf16_le(chars@.take(i as int)),
    {
        let c = chars[i];
        let v: u32 = c as u32;
        proof {
            assert(chars@.take(i + 1).drop_last() == chars@.take(i as int));
            assert(chars@.take(i + 1).last() == c);
        }
        let ghost before = out@;
        if v < 0x10000 {
            out.push((v % 256) as u8);
            out.push((v / 256) as u8);
        } else {
            let w: u32 = v - 0x10000;
            let high: u32 = 0xD800 + w / 1024;
            let low: u32 = 0xDC00 + w % 1024;
            out.push((high % 256) as u8);
            out.push((high / 256) as u8);
            out.push((low % 256) as u8);
            out.push((low / 256) as u8);
        }
        assert(out@ =~= before + utf16_le_char(c));
    }
    assert(chars@.take(chars@.len() as int) == chars@);
    out
}

pub open spec fn base64_table() -> Seq<char> {
    "ABCDEFGHIJKLMNOPQRSTUVWXYZabcdefghijklmnopqrstuvwxyz0123456789+/"@
}

pub open spec fn byte_or_zero(b: Seq<u8>, i: int) -> int {
    if 0 <= i < b.len() {
        b[i] as int
    } else {
        0
    }
}

/// Character `i` of the Base64 encoding of `b` (standard alphabet, `=` padding).
pub open spec fn base64_char(b: Seq<u8>, i: int) -> char {
    let g = i / 4;
    let p = i % 4;
    let available = b.len() - 3 * g;
    if p > available {
        '='
    } else {
        let n = byte_or_zero(b, 3 * g) * 65536 + byte_or_zero(b, 3 * g + 1) * 256 + byte_or_zero(
            b,
            3 * g + 2,
        );
        let v = if p == 0 {
            n / 262144
        } else if p == 1 {
            n / 4096 % 64
        } else if p == 2 {
            n / 64 % 64
        } else {
            n % 64
        };
        base64_table()[v]
    }
}

/// The Base64 encoding of `b`: four characters for each three bytes, the last group padded.
pub open spec fn base64_spec(b: Seq<u8>) -> Seq<char> {
    Seq::new((4 * ((b.len() + 2) / 3)) as nat, |i: int| base64_char(b, i))
}

/// Standard Base64 with padding.
pub fn base64(bytes: &[u8]) -> (r: String)
    ensures
        r@ == base64_spec(bytes@),
{
    let table: Vec<char> = chars_of(
        "ABCDEFGHIJKLMNOPQRSTUVWXYZabcdefghijklmnopqrstuvwxyz0123456789+/",
    );
    proof {
        reveal_strlit("ABCDEFGHIJKLMNOPQRSTUVWXYZabcdefghijklmnopqrstuvwxyz0123456789+/");
    }
    let n = bytes.len();
    let groups = n / 3 + if n % 3 == 0 {
        0
    } else {
        1
    };
    assert(groups == (n + 2) / 3);
    let mut chars: Vec<char> = Vec::new();
    let mut g: usize = 0;
    while g < groups
        invariant
            n == bytes@.len(),
            groups == (n + 2) / 3,
            g <= groups,
            table@ == base64_table(),
            table@.len() == 64,
            chars@.len() == 4 * g,
            forall|i: int| 0 <= i < 4 * g ==> chars@[i] == base64_char(bytes@, i),
        decreases groups - g,
    {
        let b0: u32 = bytes[3 * g] as u32;
        let b1: u32 = if 3 * g + 1 < n {
            bytes[3 * g + 1] as u32
        } else {
            0
        };
        let b2: u32 = if 3 * g + 2 < n {
            bytes[3 * g + 2] as u32
        } else {
            0
        };
        let available = n - 3 * g;
        let v: u32 = b0 * 65536 + b1 * 256 + b2;
        assert(v / 262144 < 64);
        let c0 = table[(v / 262144) as usize];
        let c1 = table[(v / 4096 % 64) as usize];
        let c2 = if available >= 2 {
            table[(v / 64 % 64) as usize]
        } else {
            '='
        };
        let c3 = if available >= 3 {
            table[(v % 64) as usize]
        } else {
            '='
        };
        proof {
            assert(byte_or_zero(bytes@, 3 * g as int) == b0);
            assert(byte_or_zero(bytes@, 3 * g + 1) == b1);
            assert(byte_or_zero(bytes@, 3 * g + 2) == b2);
            assert(v / 262144 < 64);
        }
        chars.push(c0);
        chars.push(c1);
        chars.push(c2);
        chars.push(c3);
        proof {
            let k = 4 * g as int;
            assert((k + 0) / 4 == g && (k + 0) % 4 == 0);
            assert((k + 1) / 4 == g && (k + 1) % 4 == 1);
            assert((k + 2) / 4 == g && (k + 2) % 4 == 2);
            assert((k + 3) / 4 == g && (k + 3) % 4 == 3);
            assert(chars@[k] == base64_char(bytes@, k));
            assert(chars@[k + 1] == base64_char(bytes@, k + 1));
            assert(chars@[k + 2] == base64_char(bytes@, k + 2));
            assert(chars@[k + 3] == base64_char(bytes@, k + 3));
        }
        g = g + 1;
    }
    let mut out = String::new();
    push_chars(&mut out, &chars);
    assert(out@ =~= base64_spec(bytes@));
    out
}

/// The arguments that make PowerShell run `script`: hidden, without a profile or prompts, and the
/// script passed Base64-encoded so that no quoting can break it.
pub open spec fn encoded_args_spec(script: Seq<char>) -> Seq<char> {
    "-NoProfile -NonInteractive -WindowStyle Hidden -ExecutionPolicy Bypass -EncodedCommand "@
        + base64_spec(utf16_le(script))
}

/// PowerShell arguments that run `script` without quoting problems.
pub fn encoded_args(script: &str) -> (r: String)
    ensures
        r@ == encoded_args_spec(script@),
{
    let bytes = utf16_le_bytes(script);
    let encoded = base64(bytes.as_slice());
    let mut s = String::from_str(
        "-NoProfile -NonInteractive -WindowStyle Hidden -ExecutionPolicy Bypass -EncodedCommand ",
    );
    s.append(encoded.as_str());
    s
}

/// The PowerShell program, under the Windows system folder.
pub fn powershell_in_system32() -> (r: &'static str)
    ensures
        r@ == "WindowsPowerShell\\v1.0\\powershell.exe"@,
{
    "WindowsPowerShell\\v1.0\\powershell.exe"
}

/// The command-line arguments, one by one, that make PowerShell run the Base64 form of a script.
pub fn powershell_arguments(encoded: &str) -> (r: Vec<String>)
    ensures
        r@.len() == 8,
        r@[0]@ == "-NoProfile"@,
        r@[1]@ == "-NonInteractive"@,
        r@[2]@ == "-WindowStyle"@,
        r@[3]@ == "Hidden"@,
        r@[4]@ == "-ExecutionPolicy"@,
        r@[5]@ == "Bypass"@,
        r@[6]@ == "-EncodedCommand"@,
        r@[7]@ == encoded@,
{
    let mut r: Vec<String> = Vec::new();
    r.push(String::from_str("-NoProfile"));
    r.push(String::from_str("-NonInteractive"));
    r.push(String::from_str("-WindowStyle"));
    r.push(String::from_str("Hidden"));
    r.push(String::from_str("-ExecutionPolicy"));
    r.push(String::from_str("Bypass"));
    r.push(String::from_str("-EncodedCommand"));
    r.push(String::from_str(encoded));
    r
}

/// The title and message of the sample notification that Settings sends.
pub fn test_notification() -> (r: (&'static str, &'static str))
    ensures
        r.0@ == "Blocking starts in 10 minutes"@,
        r.1@ == "This is how the heads-up will look before a block."@,
{
    ("Blocking starts in 10 minutes", "This is how the heads-up will look before a block.")
}

/// Why a heads-up could not be shown at all: the toast's error, then the message box's.
pub fn fallback_failed_message(toast_error: &str, box_error: &str) -> (r: String)
    ensures
        r@ == toast_error@ + " "@ + box_error@,
{
    let mut s = String::from_str(toast_error);
    s.append(" ");
    s.append(box_error);
    s
}

/// Why the sample notification failed: PowerShell could not start (`None` for `stderr`, with the
/// error), or it ran and failed, with what it printed as errors, trimmed.
pub fn test_failed_message(start_error: Option<&str>, stderr: &str) -> (r: String)
    ensures
        r@ == match start_error {
            Some(e) => "Could not start PowerShell: "@ + e@,
            None => "The notification could not be shown. "@ + trim(stderr@),
        },
{
    match start_error {
        Some(e) => {
            let mut s = String::from_str("Could not start PowerShell: ");
            s.append(e);
            s
        },
        None => {
            let mut s = String::from_str("The notification could not be shown. ");
            let t = string_of(&trim_chars(&chars_of(stderr)));
            s.append(t.as_str());
            s
        },
    }
}

} // verus!
