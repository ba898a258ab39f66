//! How Windows reads a path: its drive or network prefix, whether it is absolute, and its file
//! name and extension. Both `\` and `/` separate folders.
use crate::config::{split_chars, split_on, lemma_split_on_len};
use crate::paths::{backslashed, is_separator};
use crate::text::{chars_of, string_of, subrange_chars};
use vstd::prelude::*;
use vstd::string::*;

verus! {

broadcast use vstd::string::group_string_axioms;

pub open spec fn is_ascii_letter(c: char) -> bool {
    ('a' <= c && c <= 'z') || ('A' <= c && c <= 'Z')
}

/// The path starts with a drive, such as `C:`.
pub open spec fn has_drive(s: Seq<char>) -> bool {
    s.len() >= 2 && is_ascii_letter(s[0]) && s[1] == ':'
}

/// The path starts with two separators: a network share (`\\server\share`), or a device or
/// verbatim path (`\\.\`, `\\?\`), whose first two names stand where a server and share do.
pub open spec fn has_share(s: Seq<char>) -> bool {
    s.len() >= 2 && is_separator(s[0]) && is_separator(s[1])
}

/// Absolute: a share, or a drive followed by a separator.
pub open spec fn win_is_absolute(s: Seq<char>) -> bool {
    has_share(s) || (has_drive(s) && s.len() > 2 && is_separator(s[2]))
}

/// The names after the prefix (a share's server and share name belong to the prefix), as
/// written between separators, empty ones included.
pub open spec fn raw_parts(s: Seq<char>) -> Seq<Seq<char>> {
    let t = backslashed(s);
    if has_share(s) {
        let p = split_on(t.subrange(2, t.len() as int), '\\');
        if p.len() >= 2 {
            p.subrange(2, p.len() as int)
        } else {
            seq![]
        }
    } else if has_drive(s) {
        split_on(t.subrange(2, t.len() as int), '\\')
    } else {
        split_on(t, '\\')
    }
}

/// A name that counts as a component: not empty, and not `.`.
pub open spec fn is_component(c: Seq<char>) -> bool {
    c.len() > 0 && c != seq!['.']
}

pub open spec fn win_components(s: Seq<char>) -> Seq<Seq<char>> {
    raw_parts(s).filter(|c: Seq<char>| is_component(c))
}

/// The file name: the last component, unless there is none or it is `..`.
pub open spec fn win_file_name(s: Seq<char>) -> Option<Seq<char>> {
    let c = win_components(s);
    if c.len() == 0 || c.last() == seq!['.', '.'] {
        None
    } else {
        Some(c.last())
    }
}

/// Where the last `c` of `s` stands, or -1.
pub open spec fn last_index(s: Seq<char>, c: char) -> int
    decreases s.len(),
{
    if s.len() == 0 {
        -1
    } else if s.last() == c {
        s.len() - 1
    } else {
        last_index(s.drop_last(), c)
    }
}

/// The extension: what follows the file name's last `.`, when that dot does not begin the name.
pub open spec fn win_extension(s: Seq<char>) -> Option<Seq<char>> {
    match win_file_name(s) {
        None => None,
        Some(n) => {
            let k = last_index(n, '.');
            if k > 0 {
                Some(n.subrange(k + 1, n.len() as int))
            } else {
                None
            }
        },
    }
}

pub fn is_absolute(path: &str) -> (r: bool)
    ensures
        r == win_is_absolute(path@),
{
    let c = chars_of(path);
    let n = c.len();
    if n >= 2 && (c[0] == '\\' || c[0] == '/') && (c[1] == '\\' || c[1] == '/') {
        return true;
    }
    n > 2 && (('a' <= c[0] && c[0] <= 'z') || ('A' <= c[0] && c[0] <= 'Z')) && c[1] == ':' && (c[2]
        == '\\' || c[2] == '/')
}

fn raw_parts_exec(path: &str) -> (r: Vec<Vec<char>>)
    ensures
        r@.map_values(|v: Vec<char>| v@) == raw_parts(path@),
{
    let c = chars_of(path);
    let n = c.len();
    let mut t: Vec<char> = Vec::new();
    for i in 0..n
        invariant
            n == c@.len(),
            c@ == path@,
            t@ == backslashed(c@.take(i as int)),
    {
        let x = if c[i] == '/' {
            '\\'
        } else {
            c[i]
        };
        t.push(x);
        assert(t@ =~= backslashed(c@.take(i + 1)));
    }
    assert(c@.take(n as int) == c@);
    let share = n >= 2 && (c[0] == '\\' || c[0] == '/') && (c[1] == '\\' || c[1] == '/');
    let drive = n >= 2 && (('a' <= c[0] && c[0] <= 'z') || ('A' <= c[0] && c[0] <= 'Z')) && c[1]
        == ':';
    if share {
        let rest = subrange_chars(&t, 2, n);
        let p = split_chars(&rest, '\\');
        if p.len() >= 2 {
            let mut r: Vec<Vec<char>> = Vec::new();
            let m = p.len();
            for j in 2..m
                invariant
                    m == p@.len(),
                    2 <= j <= m,
                    r@.len() == j - 2,
                    r@.map_values(|v: Vec<char>| v@) == p@.map_values(|v: Vec<char>| v@).subrange(2, j as int),
            {
                let item = subrange_chars(&p[j], 0, p[j].len());
                assert(item@ =~= p@[j as int]@);
                let ghost before = r@;
                r.push(item);
                assert(r@ == before.push(item));
                assert(r@.map_values(|v: Vec<char>| v@) =~= p@.map_values(|v: Vec<char>| v@).subrange(2, j + 1));
            }
            r
        } else {
            Vec::new()
        }
    } else if drive {
        let rest = subrange_chars(&t, 2, n);
        split_chars(&rest, '\\')
    } else {
        split_chars(&t, '\\')
    }
}

/// The components of a path; see [`win_components`].
pub fn components(path: &str) -> (r: Vec<Vec<char>>)
    ensures
        r@.map_values(|v: Vec<char>| v@) == win_components(path@),
{
    let parts = raw_parts_exec(path);
    let ghost pv = parts@.map_values(|v: Vec<char>| v@);
    let mut r: Vec<Vec<char>> = Vec::new();
    for j in 0..parts.len()
        invariant
            pv == parts@.map_values(|v: Vec<char>| v@),
            pv == raw_parts(path@),
            r@.map_values(|v: Vec<char>| v@) == pv.take(j as int).filter(|c: Seq<char>| is_component(c)),
    {
        let part = &parts[j];
        proof {
            assert(pv.take(j + 1) == pv.take(j as int).push(pv[j as int]));
            pv.take(j as int).lemma_filter_push(pv[j as int], |c: Seq<char>| is_component(c));
        }
        let dot = part.len() == 1 && part[0] == '.';
        if part.len() > 0 && !dot {
            assert(part@ != seq!['.']);
            let item = subrange_chars(part, 0, part.len());
            assert(item@ =~= part@);
            assert(pv[j as int] == part@);
            r.push(item);
            assert(r@.map_values(|v: Vec<char>| v@) =~= pv.take(j as int).filter(|c: Seq<char>| is_component(c)).push(pv[j as int]));
        } else {
            assert(pv[j as int] == part@);
            if dot {
                assert(part@ =~= seq!['.']);
            }
            assert(!is_component(pv[j as int]));
        }
    }
    assert(pv.take(pv.len() as int) == pv);
    r
}

/// The file name of a path; see [`win_file_name`].
pub fn file_name(path: &str) -> (r: Option<String>)
    ensures
        match r {
            Some(n) => win_file_name(path@) == Some(n@),
            None => win_file_name(path@) is None,
        },
{
    let comps = components(path);
    let k = comps.len();
    if k == 0 {
        return None;
    }
    let last = &comps[k - 1];
    assert(win_components(path@).last() == last@);
    if last.len() == 2 && last[0] == '.' && last[1] == '.' {
        assert(last@ == seq!['.', '.']);
        return None;
    }
    assert(last@ != seq!['.', '.']);
    Some(string_of(last))
}

/// The extension of a path; see [`win_extension`].
pub fn extension(path: &str) -> (r: Option<String>)
    ensures
        match r {
            Some(e) => win_extension(path@) == Some(e@),
            None => win_extension(path@) is None,
        },
{
    let name = match file_name(path) {
        Some(n) => n,
        None => {
            return None;
        },
    };
    let c = chars_of(name.as_str());
    let n = c.len();
    let mut k: usize = n;
    proof {
        lemma_last_index(c@, n as int, '.');
    }
    while k > 0 && c[k - 1] != '.'
        invariant
            n == c@.len(),
            k <= n,
            forall|j: int| k <= j < n ==> c@[j] != '.',
        decreases k,
    {
        k = k - 1;
    }
    proof {
        lemma_last_index(c@, k as int, '.');
        if k > 0 {
            assert(c@.take(k as int).last() == c@[k - 1]);
        }
    }
    if k > 1 {
        Some(string_of(&subrange_chars(&c, k, n)))
    } else {
        None
    }
}

proof fn lemma_last_index(s: Seq<char>, k: int, c: char)
    requires
        0 <= k <= s.len(),
        forall|j: int| k <= j < s.len() ==> s[j] != c,
    ensures
        last_index(s, c) == last_index(s.take(k), c),
        -1 <= last_index(s, c) < s.len(),
    decreases s.len() - k,
{
    if k < s.len() {
        assert(s.drop_last() == s.take(s.len() - 1));
        lemma_last_index(s.drop_last(), k, c);
        assert(s.drop_last().take(k) == s.take(k));
    } else {
        assert(s.take(k) == s);
        lemma_last_index_range(s, c);
    }
}

proof fn lemma_last_index_range(s: Seq<char>, c: char)
    ensures
        -1 <= last_index(s, c) < s.len(),
    decreases s.len(),
{
    if s.len() > 0 && s.last() != c {
        lemma_last_index_range(s.drop_last(), c);
    }
}

} // verus!
