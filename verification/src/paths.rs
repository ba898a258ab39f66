//! Install names and executable-path matching.
use crate::config::split_on;
use crate::text::{chars_of, find_char, string_of, trim, trim_chars};
use vstd::prelude::*;
use vstd::string::*;

verus! {

broadcast use vstd::string::group_string_axioms;

pub fn app_name() -> (r: &'static str)
    ensures
        r@ == "Windows App Blocker"@,
{
    "Windows App Blocker"
}

pub fn exe_name() -> (r: &'static str)
    ensures
        r@ == "Windows App Blocker.exe"@,
{
    "Windows App Blocker.exe"
}

pub fn task_name() -> (r: &'static str)
    ensures
        r@ == "WindowsAppBlocker"@,
{
    "WindowsAppBlocker"
}

/// Whether `c` separates folders in a Windows path.
pub open spec fn is_separator(c: char) -> bool {
    c == '\\' || c == '/'
}

/// `base` joined with a relative `name` as a Windows path: with a `\` between them unless
/// `base` is empty, already ends with a separator, or is a bare drive such as `C:`.
pub open spec fn joined(base: Seq<char>, name: Seq<char>) -> Seq<char> {
    if base.len() == 0 || is_separator(base.last()) || (base.len() == 2 && base[1] == ':') {
        base + name
    } else {
        base + "\\"@ + name
    }
}

/// Joins a relative `name` to the folder `base` as Windows does.
pub fn join(base: &str, name: &str) -> (r: String)
    ensures
        r@ == joined(base@, name@),
{
    let c = chars_of(base);
    let n = c.len();
    let mut s = String::from_str(base);
    if !(n == 0 || c[n - 1] == '\\' || c[n - 1] == '/' || (n == 2 && c[1] == ':')) {
        s.append("\\");
    }
    s.append(name);
    s
}

/// The folder that an environment variable names, or `fallback` when it is not set.
pub open spec fn folder_or(variable: Option<Seq<char>>, fallback: Seq<char>) -> Seq<char> {
    match variable {
        Some(v) => v,
        None => fallback,
    }
}

/// The program's folder, `Windows App Blocker` under the 64-bit Program Files folder
/// (`program_files`, from `ProgramW6432`; `C:\Program Files` when it is not set). Removed on
/// uninstall.
pub fn program_dir(program_files: Option<&str>) -> (r: String)
    ensures
        r@ == joined(
            folder_or(
                match program_files {
                    Some(p) => Some(p@),
                    None => None,
                },
                "C:\\Program Files"@,
            ),
            "Windows App Blocker"@,
        ),
{
    let base = match program_files {
        Some(p) => p,
        None => "C:\\Program Files",
    };
    join(base, app_name())
}

/// The installed program: `Windows App Blocker.exe` in [`program_dir`].
pub fn installed_exe(program_files: Option<&str>) -> (r: String)
    ensures
        r@ == joined(
            joined(
                folder_or(
                    match program_files {
                        Some(p) => Some(p@),
                        None => None,
                    },
                    "C:\\Program Files"@,
                ),
                "Windows App Blocker"@,
            ),
            "Windows App Blocker.exe"@,
        ),
{
    let dir = program_dir(program_files);
    join(dir.as_str(), exe_name())
}

/// The folder of settings and logs, `WindowsAppBlocker` under `program_data` (from
/// `ProgramData`; `C:\ProgramData` when it is not set). Kept on uninstall.
pub fn data_dir(program_data: Option<&str>) -> (r: String)
    ensures
        r@ == joined(
            folder_or(
                match program_data {
                    Some(p) => Some(p@),
                    None => None,
                },
                "C:\\ProgramData"@,
            ),
            "WindowsAppBlocker"@,
        ),
{
    let base = match program_data {
        Some(p) => p,
        None => "C:\\ProgramData",
    };
    join(base, task_name())
}

/// The settings file, `config.json` in [`data_dir`].
pub fn config_path(program_data: Option<&str>) -> (r: String)
    ensures
        r@ == joined(
            joined(
                folder_or(
                    match program_data {
                        Some(p) => Some(p@),
                        None => None,
                    },
                    "C:\\ProgramData"@,
                ),
                "WindowsAppBlocker"@,
            ),
            "config.json"@,
        ),
{
    let dir = data_dir(program_data);
    join(dir.as_str(), "config.json")
}

/// The log file, `WindowsAppBlocker.log` in [`data_dir`].
pub fn log_path(program_data: Option<&str>) -> (r: String)
    ensures
        r@ == joined(
            joined(
                folder_or(
                    match program_data {
                        Some(p) => Some(p@),
                        None => None,
                    },
                    "C:\\ProgramData"@,
                ),
                "WindowsAppBlocker"@,
            ),
            "WindowsAppBlocker.log"@,
        ),
{
    let dir = data_dir(program_data);
    join(dir.as_str(), "WindowsAppBlocker.log")
}

/// What `str::to_lowercase` gives for a text: Unicode lower case, which depends on the text
/// alone.
pub uninterp spec fn lowercase_of(s: Seq<char>) -> Seq<char>;

/// `str::to_lowercase`: Unicode lower case, named by `lowercase_of`. Of a text made of ASCII
/// characters only, Unicode lower case turns `A`-`Z` into `a`-`z` and keeps every other
/// character, one for one.
#[verifier::external_body]
fn to_lowercase(s: &str) -> (r: String)
    ensures
        r@ == lowercase_of(s@),
        (forall|i: int| 0 <= i < s@.len() ==> (#[trigger] s@[i] as u32) < 128) ==> r@ == s@.map_values(
            |c: char| crate::config::ascii_lower(c),
        ),
{
    s.to_lowercase()
}

/// `std::path::absolute`: the path made absolute against the current folder under the platform's
/// path rules. Both depend on where and on what the program runs, so nothing is stated of the
/// answer.
#[verifier::external_body]
fn absolute_path(path: &str) -> Option<String> {
    match std::path::absolute(std::path::Path::new(path)) {
        Ok(p) => Some(p.to_string_lossy().into_owned()),
        Err(_) => None,
    }
}

/// `s` with every `/` made `\`.
pub open spec fn backslashed(s: Seq<char>) -> Seq<char> {
    s.map_values(|c: char|
        if c == '/' {
            '\\'
        } else {
            c
        })
}

/// `s` without its trailing `\`s.
pub open spec fn trim_end_backslashes(s: Seq<char>) -> Seq<char>
    decreases s.len(),
{
    if s.len() > 0 && s.last() == '\\' {
        trim_end_backslashes(s.drop_last())
    } else {
        s
    }
}

/// How an absolute path is compared: backslashes, no trailing separator, lower case.
pub open spec fn comparable(absolute: Seq<char>) -> Seq<char> {
    lowercase_of(trim_end_backslashes(backslashed(absolute)))
}

/// `s` with every `/` made `\`.
pub fn with_backslashes(s: &str) -> (r: String)
    ensures
        r@ == backslashed(s@),
{
    let chars = chars_of(s);
    let mut b: Vec<char> = Vec::new();
    for i in 0..chars.len()
        invariant
            chars@ == s@,
            b@ == backslashed(chars@.take(i as int)),
    {
        let c = if chars[i] == '/' {
            '\\'
        } else {
            chars[i]
        };
        b.push(c);
        assert(b@ =~= backslashed(chars@.take(i + 1)));
    }
    assert(chars@.take(chars@.len() as int) == chars@);
    string_of(&b)
}

/// Turns an absolute path into the form paths are compared in.
pub fn comparable_form(absolute: &str) -> (r: String)
    ensures
        r@ == comparable(absolute@),
{
    let chars = chars_of(absolute);
    let mut b: Vec<char> = Vec::new();
    for i in 0..chars.len()
        invariant
            chars@ == absolute@,
            b@ == backslashed(chars@.take(i as int)),
    {
        let c = if chars[i] == '/' {
            '\\'
        } else {
            chars[i]
        };
        b.push(c);
        assert(b@ =~= backslashed(chars@.take(i + 1)));
    }
    assert(chars@.take(chars@.len() as int) == chars@);
    let mut k: usize = b.len();
    assert(b@.take(k as int) == b@);
    while k > 0 && b[k - 1] == '\\'
        invariant
            k <= b@.len(),
            trim_end_backslashes(b@) == trim_end_backslashes(b@.take(k as int)),
        decreases k,
    {
        proof {
            assert(b@.take(k as int).drop_last() == b@.take(k - 1));
        }
        k = k - 1;
    }
    let trimmed = crate::text::subrange_chars(&b, 0, k);
    assert(trimmed@ == b@.take(k as int));
    proof {
        if trimmed@.len() > 0 {
            assert(trimmed@.last() != '\\');
        }
    }
    let text = string_of(&trimmed);
    to_lowercase(text.as_str())
}

/// What normalising `path` may give, whatever the working directory: nothing for a blank path;
/// otherwise nothing (when the path cannot be made absolute) or the compared form of an absolute
/// path.
pub open spec fn normalize_outcome(path: Seq<char>, o: Option<Seq<char>>) -> bool {
    &&& (trim(path).len() == 0 ==> o is None)
    &&& (o matches Some(n) ==> exists|a: Seq<char>| n == #[trigger] comparable(a))
}

/// Whether each of `outs` is what normalising the path at its place may give.
pub open spec fn normalize_outcomes(paths: Seq<Seq<char>>, outs: Seq<Option<Seq<char>>>) -> bool {
    &&& outs.len() == paths.len()
    &&& forall|i: int| 0 <= i < paths.len() ==> normalize_outcome(#[trigger] paths[i], outs[i])
}

/// The texts of a list of optional strings.
pub open spec fn opt_texts(v: Seq<Option<String>>) -> Seq<Option<Seq<char>>> {
    v.map_values(|o: Option<String>| crate::config::opt_text(o))
}

/// Nothing is always a possible outcome of normalising, for each path of a list.
pub proof fn lemma_nothing_normalized(paths: Seq<Seq<char>>)
    ensures
        normalize_outcomes(paths, Seq::new(paths.len(), |i: int| None::<Seq<char>>)),
{
}

/// Normalises a path for comparison: absolute, backslashes, no trailing separator, lower case.
pub fn normalize(path: &str) -> (r: Option<String>)
    ensures
        normalize_outcome(path@, crate::config::opt_text(r)),
{
    let chars = chars_of(path);
    let trimmed = trim_chars(&chars);
    if trimmed.len() == 0 {
        return None;
    }
    let t = string_of(&trimmed);
    match absolute_path(t.as_str()) {
        Some(a) => {
            let n = comparable_form(a.as_str());
            assert(n@ == comparable(a@));
            Some(n)
        },
        None => None,
    }
}

/// Normalises each path of a list.
pub fn normalize_all(paths: &[String]) -> (r: Vec<Option<String>>)
    ensures
        normalize_outcomes(crate::config::texts(paths@), opt_texts(r@)),
{
    let mut r: Vec<Option<String>> = Vec::new();
    for i in 0..paths.len()
        invariant
            r@.len() == i,
            forall|k: int|
                0 <= k < i ==> normalize_outcome(paths@[k]@, #[trigger] opt_texts(r@)[k]),
    {
        let n = normalize(paths[i].as_str());
        let ghost before = r@;
        r.push(n);
        proof {
            assert forall|k: int| 0 <= k < i + 1 implies normalize_outcome(
                paths@[k]@,
                #[trigger] opt_texts(r@)[k],
            ) by {
                if k < i {
                    assert(opt_texts(r@)[k] == opt_texts(before)[k]);
                }
            }
        }
    }
    proof {
        let ps = crate::config::texts(paths@);
        assert forall|k: int| 0 <= k < ps.len() implies normalize_outcome(
            #[trigger] ps[k],
            opt_texts(r@)[k],
        ) by {
            assert(ps[k] == paths@[k]@);
        }
    }
    r
}

/// Whether two paths are taken for the same file, given what normalising each gave.
pub open spec fn same_path_by(a: Seq<char>, b: Seq<char>, oa: Option<Seq<char>>, ob: Option<Seq<char>>) -> bool {
    normalize_outcome(a, oa) && normalize_outcome(b, ob)
}

/// Whether two paths name the same file once normalised.
pub fn same_path(a: &str, b: &str) -> (r: bool)
    ensures
        r ==> trim(a@).len() > 0 && trim(b@).len() > 0,
        exists|oa: Option<Seq<char>>, ob: Option<Seq<char>>|
            #[trigger] same_path_by(a@, b@, oa, ob) && r == (oa is Some && oa == ob),
{
    let na = normalize(a);
    let nb = normalize(b);
    let r = match (&na, &nb) {
        (Some(x), Some(y)) => crate::config::same_text(x.as_str(), y.as_str()),
        _ => false,
    };
    proof {
        let oa = crate::config::opt_text(na);
        let ob = crate::config::opt_text(nb);
        assert(same_path_by(a@, b@, oa, ob));
    }
    r
}

/// Whether `pattern` matches `text`, where `*` stands for any run of characters.
pub open spec fn glob_match(pattern: Seq<char>, text: Seq<char>) -> bool
    decreases pattern.len(), 0int, 0int,
{
    if pattern.len() == 0 {
        text.len() == 0
    } else if pattern[0] == '*' {
        glob_any_suffix(pattern.drop_first(), text, 0)
    } else {
        text.len() > 0 && text[0] == pattern[0] && glob_match(pattern.drop_first(), text.drop_first())
    }
}

/// Whether `pattern` matches `text` with its first `i` or more characters skipped.
pub open spec fn glob_any_suffix(pattern: Seq<char>, text: Seq<char>, i: int) -> bool
    decreases pattern.len(), 1int, text.len() + 1 - i,
{
    if i < 0 || i > text.len() {
        false
    } else {
        glob_match(pattern, text.subrange(i, text.len() as int)) || glob_any_suffix(
            pattern,
            text,
            i + 1,
        )
    }
}

fn glob_from(p: &[char], pi: usize, t: &[char], ti: usize) -> (r: bool)
    requires
        pi <= p@.len(),
        ti <= t@.len(),
    ensures
        r == glob_match(p@.subrange(pi as int, p@.len() as int), t@.subrange(ti as int, t@.len() as int)),
    decreases p@.len() - pi, 0int, 0int,
{
    let ghost ps = p@.subrange(pi as int, p@.len() as int);
    let ghost ts = t@.subrange(ti as int, t@.len() as int);
    if pi == p.len() {
        return ti == t.len();
    }
    assert(ps[0] == p@[pi as int]);
    assert(ps.drop_first() == p@.subrange(pi + 1, p@.len() as int));
    if p[pi] == '*' {
        glob_star(p, pi + 1, t, ti, ti)
    } else {
        if ti == t.len() {
            return false;
        }
        assert(ts[0] == t@[ti as int]);
        assert(ts.drop_first() == t@.subrange(ti + 1, t@.len() as int));
        t[ti] == p[pi] && glob_from(p, pi + 1, t, ti + 1)
    }
}

fn glob_star(p: &[char], pi: usize, t: &[char], ti: usize, k: usize) -> (r: bool)
    requires
        pi <= p@.len(),
        ti <= k <= t@.len(),
    ensures
        r == glob_any_suffix(
            p@.subrange(pi as int, p@.len() as int),
            t@.subrange(ti as int, t@.len() as int),
            k - ti,
        ),
    decreases p@.len() - pi, 1int, t@.len() + 1 - k,
{
    let ghost ps = p@.subrange(pi as int, p@.len() as int);
    let ghost ts = t@.subrange(ti as int, t@.len() as int);
    assert(ts.subrange(k - ti, ts.len() as int) == t@.subrange(k as int, t@.len() as int));
    if glob_from(p, pi, t, k) {
        return true;
    }
    if k == t.len() {
        assert(!glob_any_suffix(ps, ts, k - ti + 1));
        return false;
    }
    glob_star(p, pi, t, ti, k + 1)
}

/// Matches one path segment against a pattern where `*` stands for any run of characters.
pub fn glob(pattern: &str, text: &str) -> (r: bool)
    ensures
        r == glob_match(pattern@, text@),
{
    let p = chars_of(pattern);
    let t = chars_of(text);
    assert(p@.subrange(0, p@.len() as int) == p@);
    assert(t@.subrange(0, t@.len() as int) == t@);
    glob_from(&p, 0, &t, 0)
}

/// Whether a configured path (compared form) covers a process's path (compared form): the same
/// text, or, when the configured path holds a `*`, the same number of `\`-separated parts, each
/// matching its pattern part.
pub open spec fn pattern_matches(pattern: Seq<char>, path: Seq<char>) -> bool {
    if !pattern.contains('*') {
        pattern == path
    } else {
        let ps = split_on(pattern, '\\');
        let ts = split_on(path, '\\');
        ps.len() == ts.len() && forall|i: int| 0 <= i < ps.len() ==> glob_match(ps[i], #[trigger] ts[i])
    }
}

pub fn matches_pattern(pattern: &str, path: &str) -> (r: bool)
    ensures
        r == pattern_matches(pattern@, path@),
{
    let pc = chars_of(pattern);
    match find_char(&pc, '*') {
        None => {
            return crate::config::same_text(pattern, path);
        },
        Some(i) => {
            assert(pattern@.contains('*')) by {
                assert(pattern@[i as int] == '*');
            }
        },
    }
    let tc = chars_of(path);
    let ps = crate::config::split_chars(&pc, '\\');
    let ts = crate::config::split_chars(&tc, '\\');
    let ghost psv = split_on(pattern@, '\\');
    let ghost tsv = split_on(path@, '\\');
    assert(forall|i: int| 0 <= i < ps@.len() ==> ps@[i]@ == #[trigger] psv[i]);
    assert(forall|i: int| 0 <= i < ts@.len() ==> ts@[i]@ == #[trigger] tsv[i]);
    if ps.len() != ts.len() {
        return false;
    }
    for i in 0..ps.len()
        invariant
            pattern@.contains('*'),
            ps@.len() == ts@.len(),
            psv == split_on(pattern@, '\\'),
            tsv == split_on(path@, '\\'),
            psv.len() == ps@.len(),
            tsv.len() == ts@.len(),
            forall|k: int| 0 <= k < ps@.len() ==> ps@[k]@ == #[trigger] psv[k],
            forall|k: int| 0 <= k < ts@.len() ==> ts@[k]@ == #[trigger] tsv[k],
            forall|k: int| 0 <= k < i ==> glob_match(psv[k], #[trigger] tsv[k]),
    {
        let a = &ps[i];
        let b = &ts[i];
        assert(a@.subrange(0, a@.len() as int) == a@);
        assert(b@.subrange(0, b@.len() as int) == b@);
        assert(a@ == psv[i as int] && b@ == tsv[i as int]);
        if !glob_from(a.as_slice(), 0, b.as_slice(), 0) {
            return false;
        }
    }
    true
}

/// Whether the compared form of a process's path is covered by one of the compared forms of the
/// configured executables (those that could be normalised).
pub open spec fn covered_by_any(process: Seq<char>, executables: Seq<Option<Seq<char>>>) -> bool {
    exists|i: int|
        0 <= i < executables.len() && (#[trigger] executables[i] matches Some(e) && pattern_matches(
            e,
            process,
        ))
}

/// Decides, from the compared forms, whether a process's path is one of the configured
/// executables.
pub fn matches_any(process: &str, executables: &[Option<String>]) -> (r: bool)
    ensures
        r == covered_by_any(process@, opt_texts(executables@)),
{
    let ghost ev = opt_texts(executables@);
    for i in 0..executables.len()
        invariant
            ev == opt_texts(executables@),
            forall|k: int|
                0 <= k < i ==> !(#[trigger] ev[k] matches Some(e) && pattern_matches(e, process@)),
    {
        match &executables[i] {
            Some(e) => {
                if matches_pattern(e.as_str(), process) {
                    assert(ev[i as int] == Some(e@));
                    return true;
                }
            },
            None => {},
        }
    }
    false
}

/// The text of an optional string slice.
pub open spec fn opt_str(o: Option<&str>) -> Option<Seq<char>> {
    match o {
        Some(s) => Some(s@),
        None => None,
    }
}

/// Whether `np` and `ns` are what normalising a process's path (none when it is unknown) and
/// each configured executable may give.
pub open spec fn configured_by(
    process: Option<Seq<char>>,
    executables: Seq<Seq<char>>,
    np: Option<Seq<char>>,
    ns: Seq<Option<Seq<char>>>,
) -> bool {
    &&& match process {
        Some(p) => normalize_outcome(p, np),
        None => np is None,
    }
    &&& normalize_outcomes(executables, ns)
}

/// Whether the compared form of a process's path, if there is one, is covered by a compared
/// form of the configured executables.
pub open spec fn configured_spec(np: Option<Seq<char>>, ns: Seq<Option<Seq<char>>>) -> bool {
    np matches Some(n) && covered_by_any(n, ns)
}

/// Whether a running process's full path matches one of the configured executables. A `*` in a
/// folder name matches any text within that one folder name, e.g. `Discord\app-*\Discord.exe`.
pub fn is_configured(process_path: Option<&str>, executables: &[String]) -> (r: bool)
    ensures
        r ==> (process_path matches Some(p) && trim(p@).len() > 0 && executables@.len() > 0),
        exists|np: Option<Seq<char>>, ns: Seq<Option<Seq<char>>>|
            #[trigger] configured_by(opt_str(process_path), crate::config::texts(executables@), np, ns)
                && r == configured_spec(np, ns),
{
    let process = match process_path {
        Some(p) => normalize(p),
        None => None,
    };
    match process {
        None => {
            proof {
                let ev = crate::config::texts(executables@);
                let ns = Seq::new(ev.len(), |i: int| None::<Seq<char>>);
                lemma_nothing_normalized(ev);
                assert(configured_by(opt_str(process_path), ev, None, ns));
            }
            false
        },
        Some(n) => {
            let normalized = normalize_all(executables);
            let r = matches_any(n.as_str(), &normalized);
            proof {
                let ev = crate::config::texts(executables@);
                assert(configured_by(opt_str(process_path), ev, Some(n@), opt_texts(normalized@)));
                if r {
                    let i = choose|i: int|
                        0 <= i < opt_texts(normalized@).len() && (#[trigger] opt_texts(
                            normalized@,
                        )[i] matches Some(e) && pattern_matches(e, n@));
                    assert(normalized@.len() > 0);
                }
            }
            r
        },
    }
}

} // verus!
