//! The monitor's log: a message repeated within five minutes is written once, and the file is
//! rotated at 1 MB with three old copies kept.
use crate::text::{push_decimal, decimal};
use vstd::prelude::*;
use vstd::string::*;

verus! {

broadcast use vstd::string::group_string_axioms;

/// How long a message is not written again, in milliseconds: five minutes.
pub const REPEAT_WINDOW_MS: u64 = 300_000;

/// The size above which the log is rotated: 1 MB.
pub const MAX_BYTES: u64 = 1_048_576;

/// Milliseconds from `then` to `now`, or 0 when `then` is later.
pub open spec fn elapsed(then: u64, now: u64) -> int {
    if now >= then {
        now - then
    } else {
        0
    }
}

/// The map that a list of entries with distinct keys stands for.
pub open spec fn map_of(entries: Seq<(String, u64)>) -> Map<Seq<char>, u64> {
    Map::new(
        |k: Seq<char>| exists|i: int| 0 <= i < entries.len() && entries[i].0@ == k,
        |k: Seq<char>| entries[choose|i: int| 0 <= i < entries.len() && entries[i].0@ == k].1,
    )
}

pub open spec fn distinct_keys(entries: Seq<(String, u64)>) -> bool {
    forall|i: int, j: int| 0 <= i < j < entries.len() ==> entries[i].0@ != entries[j].0@
}

pub proof fn lemma_map_of_at(entries: Seq<(String, u64)>, i: int)
    requires
        distinct_keys(entries),
        0 <= i < entries.len(),
    ensures
        map_of(entries).contains_key(entries[i].0@),
        map_of(entries)[entries[i].0@] == entries[i].1,
{
    let k = entries[i].0@;
    let c = choose|c: int| 0 <= c < entries.len() && entries[c].0@ == k;
    if c < i {
        assert(entries[c].0@ != entries[i].0@);
    }
    if i < c {
        assert(entries[i].0@ != entries[c].0@);
    }
}

/// Whether a message with `key` may be written at `now`, given when messages were last written:
/// not when it was written less than five minutes ago.
pub open spec fn may_write(recent: Map<Seq<char>, u64>, key: Seq<char>, now: u64) -> bool {
    !(recent.contains_key(key) && elapsed(recent[key], now) < REPEAT_WINDOW_MS)
}

/// What is remembered after writing `key` at `now`: the messages written less than five minutes
/// ago, and `key` at `now`.
pub open spec fn recorded(recent: Map<Seq<char>, u64>, key: Seq<char>, now: u64) -> Map<Seq<char>, u64> {
    Map::new(
        |k: Seq<char>| recent.contains_key(k) && elapsed(recent[k], now) < REPEAT_WINDOW_MS,
        |k: Seq<char>| recent[k],
    ).insert(key, now)
}

/// A message written at `then` is not written again before five minutes have passed, and may be
/// written again once they have.
pub proof fn lemma_repeat_window(recent: Map<Seq<char>, u64>, key: Seq<char>, then: u64, now: u64)
    requires
        then <= now,
    ensures
        may_write(recorded(recent, key, then), key, now) <==> now - then >= REPEAT_WINDOW_MS,
{
}

/// Writing one message never hides a different message: what may be written stays so.
pub proof fn lemma_other_messages_unaffected(
    recent: Map<Seq<char>, u64>,
    key: Seq<char>,
    other: Seq<char>,
    then: u64,
    now: u64,
)
    requires
        key != other,
        then <= now,
        may_write(recent, other, then),
    ensures
        may_write(recorded(recent, key, then), other, now),
{
}

/// The messages written recently, each with when it was last written (milliseconds on a
/// monotonic clock).
pub struct RecentMessages {
    entries: Vec<(String, u64)>,
}

impl RecentMessages {
    /// Each message is recorded once.
    #[verifier::type_invariant]
    spec fn keys_distinct(self) -> bool {
        forall|i: int, j: int|
            0 <= i < j < self.entries@.len() ==> self.entries@[i].0@ != self.entries@[j].0@
    }

    /// When each message was last written.
    pub closed spec fn view(&self) -> Map<Seq<char>, u64> {
        map_of(self.entries@)
    }

    pub fn new() -> (r: RecentMessages)
        ensures
            r.view() == Map::<Seq<char>, u64>::empty(),
    {
        let r = RecentMessages { entries: Vec::new() };
        assert(r.view() =~= Map::<Seq<char>, u64>::empty());
        r
    }

    /// Whether `key` may be written at `now`: not when it was written less than five minutes ago.
    /// When it may, entries five minutes old or older are forgotten and `key` is recorded at `now`.
    pub fn should_write(&mut self, key: &str, now: u64) -> (r: bool)
        ensures
            r == may_write(old(self).view(), key@, now),
            !r ==> final(self).view() == old(self).view(),
            r ==> final(self).view() == recorded(old(self).view(), key@, now),
    {
        proof {
            use_type_invariant(&*self);
        }
        match find_key(&self.entries, key) {
            Some(i) => {
                let t = self.entries[i].1;
                proof {
                    lemma_map_of_at(self.entries@, i as int);
                }
                let age: u64 = if now >= t {
                    now - t
                } else {
                    0
                };
                if age < REPEAT_WINDOW_MS {
                    return false;
                }
            },
            None => {},
        }
        let mut kept = retain_fresh(&self.entries, key, now);
        let entry = (String::from_str(key), now);
        proof {
            lemma_recorded(self.entries@, entry, now);
        }
        kept.push(entry);
        self.entries = kept;
        true
    }
}

/// Finds the entry of `key`.
fn find_key(entries: &Vec<(String, u64)>, key: &str) -> (r: Option<usize>)
    ensures
        match r {
            Some(i) => i < entries@.len() && entries@[i as int].0@ == key@,
            None => forall|j: int| 0 <= j < entries@.len() ==> entries@[j].0@ != key@,
        },
{
    for i in 0..entries.len()
        invariant
            forall|j: int| 0 <= j < i ==> entries@[j].0@ != key@,
    {
        if crate::config::same_text(entries[i].0.as_str(), key) {
            return Some(i);
        }
    }
    None
}

/// An entry is kept when it is not `key`'s and was written less than five minutes before `now`.
pub open spec fn kept_entry(e: (String, u64), key: Seq<char>, now: u64) -> bool {
    e.0@ != key && elapsed(e.1, now) < REPEAT_WINDOW_MS
}

pub open spec fn keeps(key: Seq<char>, now: u64) -> spec_fn((String, u64)) -> bool {
    |e: (String, u64)| kept_entry(e, key, now)
}

pub proof fn lemma_filter_distinct(s: Seq<(String, u64)>, p: spec_fn((String, u64)) -> bool)
    requires
        distinct_keys(s),
    ensures
        distinct_keys(s.filter(p)),
    decreases s.len(),
{
    reveal(Seq::filter);
    if s.len() > 0 {
        let rest = s.drop_last();
        assert(distinct_keys(rest)) by {
            assert forall|i: int, j: int| 0 <= i < j < rest.len() implies rest[i].0@ != rest[j].0@ by {
                assert(rest[i] == s[i] && rest[j] == s[j]);
            }
        }
        lemma_filter_distinct(rest, p);
        let f = rest.filter(p);
        if p(s.last()) {
            let g = f.push(s.last());
            assert forall|i: int, j: int| 0 <= i < j < g.len() implies g[i].0@ != g[j].0@ by {
                if j == g.len() - 1 {
                    assert(f.contains(g[i]));
                    rest.lemma_filter_contains_rev(p, g[i]);
                    let k = choose|k: int| 0 <= k < rest.len() && rest[k] == g[i];
                    assert(s[k] == rest[k]);
                } else {
                    assert(g[i] == f[i] && g[j] == f[j]);
                }
            }
        }
    }
}

/// The entries that are kept, in order.
fn retain_fresh(entries: &Vec<(String, u64)>, key: &str, now: u64) -> (kept: Vec<(String, u64)>)
    ensures
        kept@ == entries@.filter(keeps(key@, now)),
{
    broadcast use vstd::seq_lib::group_filter_ensures;

    let mut kept: Vec<(String, u64)> = Vec::new();
    let n = entries.len();
    let ghost p = keeps(key@, now);
    assert(entries@.take(0).filter(p) =~= Seq::<(String, u64)>::empty()) by {
        reveal(Seq::filter);
    }
    for i in 0..n
        invariant
            n == entries@.len(),
            p == keeps(key@, now),
            kept@ == entries@.take(i as int).filter(p),
    {
        let t = entries[i].1;
        let age: u64 = if now >= t {
            now - t
        } else {
            0
        };
        proof {
            assert(entries@.take(i + 1) == entries@.take(i as int).push(entries@[i as int]));
            entries@.take(i as int).lemma_filter_push(entries@[i as int], p);
        }
        if age < REPEAT_WINDOW_MS && !crate::config::same_text(entries[i].0.as_str(), key) {
            let e = (entries[i].0.clone(), t);
            kept.push(e);
        }
    }
    assert(entries@.take(n as int) == entries@);
    kept
}

/// Recording `entry` after the kept entries gives the kept part of the old map with the entry's
/// message at `now`.
proof fn lemma_recorded(entries: Seq<(String, u64)>, entry: (String, u64), now: u64)
    requires
        distinct_keys(entries),
        entry.1 == now,
    ensures
        distinct_keys(entries.filter(keeps(entry.0@, now)).push(entry)),
        map_of(entries.filter(keeps(entry.0@, now)).push(entry)) == Map::new(
            |k: Seq<char>|
                map_of(entries).contains_key(k) && elapsed(map_of(entries)[k], now)
                    < REPEAT_WINDOW_MS,
            |k: Seq<char>| map_of(entries)[k],
        ).insert(entry.0@, now),
{
    broadcast use vstd::seq_lib::group_filter_ensures;

    let key = entry.0@;
    let p = keeps(key, now);
    let kept = entries.filter(p);
    lemma_filter_distinct(entries, p);
    let e = kept.push(entry);
    let before = map_of(entries);
    let expected = Map::new(
        |k: Seq<char>| before.contains_key(k) && elapsed(before[k], now) < REPEAT_WINDOW_MS,
        |k: Seq<char>| before[k],
    ).insert(key, now);
    assert forall|a: int, b: int| 0 <= a < b < e.len() implies e[a].0@ != e[b].0@ by {
        if b == e.len() - 1 {
            assert(e[a] == kept[a]);
            assert(p(kept[a]));
        } else {
            assert(e[a] == kept[a] && e[b] == kept[b]);
        }
    }
    let m = map_of(e);
    lemma_map_of_at(e, e.len() - 1);
    assert forall|k: Seq<char>| #[trigger] m.contains_key(k) == expected.contains_key(k) && (m.contains_key(k) ==> m[k] == expected[k]) by {
        if k != key {
            if m.contains_key(k) {
                let a = choose|a: int| 0 <= a < e.len() && e[a].0@ == k;
                lemma_map_of_at(e, a);
                assert(a < e.len() - 1);
                assert(e[a] == kept[a]);
                assert(p(kept[a]));
                assert(kept.contains(kept[a]));
                entries.lemma_filter_contains_rev(p, kept[a]);
                let j = choose|j: int| 0 <= j < entries.len() && entries[j] == kept[a];
                lemma_map_of_at(entries, j);
            }
            if expected.contains_key(k) {
                let j = choose|j: int| 0 <= j < entries.len() && entries[j].0@ == k;
                lemma_map_of_at(entries, j);
                assert(p(entries[j]));
                entries.lemma_filter_contains(p, j);
                let a = choose|a: int| 0 <= a < kept.len() && kept[a] == entries[j];
                assert(e[a] == kept[a]);
                lemma_map_of_at(e, a);
            }
        }
    }
    assert(m =~= expected);
}

/// What is remembered of a message: its level and text.
pub open spec fn log_key_text(level: Seq<char>, message: Seq<char>) -> Seq<char> {
    level + "|"@ + message
}

pub fn log_key(level: &str, message: &str) -> (r: String)
    ensures
        r@ == log_key_text(level@, message@),
{
    let mut s = String::from_str(level);
    s.append("|");
    s.append(message);
    s
}

/// A line of the log file: time stamp, level and message.
pub fn log_line(stamp: &str, level: &str, message: &str) -> (r: String)
    ensures
        r@ == stamp@ + " ["@ + level@ + "] "@ + message@ + "\n"@,
{
    let mut s = String::from_str(stamp);
    s.append(" [");
    s.append(level);
    s.append("] ");
    s.append(message);
    s.append("\n");
    s
}

/// A line echoed to the console: level and message.
pub fn echo_line(level: &str, message: &str) -> (r: String)
    ensures
        r@ == "["@ + level@ + "] "@ + message@,
{
    let mut s = String::from_str("[");
    s.append(level);
    s.append("] ");
    s.append(message);
    s
}

/// Whether a log file of `size` bytes (or of unknown size) is rotated before writing.
pub fn needs_rotation(size: Option<u64>) -> (r: bool)
    ensures
        r == (size matches Some(n) && n > MAX_BYTES),
{
    match size {
        Some(n) => n > MAX_BYTES,
        None => false,
    }
}

/// The name of old copy `n` of the log at `path`: `path.n`.
pub fn rotated_name(path: &str, n: u32) -> (r: String)
    ensures
        r@ == path@ + "."@ + decimal(n as nat),
{
    let mut s = String::from_str(path);
    s.append(".");
    push_decimal(&mut s, n as u64);
    s
}

/// The renames that rotate the log, in order: copy 2 to 3, copy 1 to 2, the log to copy 1.
pub fn rotation_plan(path: &str) -> (r: Vec<(String, String)>)
    ensures
        r@.len() == 3,
        r@[0].0@ == path@ + "."@ + decimal(2) && r@[0].1@ == path@ + "."@ + decimal(3),
        r@[1].0@ == path@ + "."@ + decimal(1) && r@[1].1@ == path@ + "."@ + decimal(2),
        r@[2].0@ == path@ && r@[2].1@ == path@ + "."@ + decimal(1),
{
    let mut r: Vec<(String, String)> = Vec::new();
    r.push((rotated_name(path, 2), rotated_name(path, 3)));
    r.push((rotated_name(path, 1), rotated_name(path, 2)));
    r.push((String::from_str(path), rotated_name(path, 1)));
    r
}

/// The monitor's log: the file it is written to, whether lines are echoed to the console, and
/// the messages written recently.
pub struct Logger {
    path: String,
    echo: bool,
    recent: RecentMessages,
}

impl Logger {
    pub closed spec fn path_text(&self) -> Seq<char> {
        self.path@
    }

    pub closed spec fn echoes(&self) -> bool {
        self.echo
    }

    /// When each recently written message (level and text) was written.
    pub closed spec fn recent(&self) -> Map<Seq<char>, u64> {
        self.recent.view()
    }

    pub fn new(path: String, echo: bool) -> (r: Logger)
        ensures
            r.path_text() == path@,
            r.echoes() == echo,
            r.recent() == Map::<Seq<char>, u64>::empty(),
    {
        Logger { path, echo, recent: RecentMessages::new() }
    }

    /// The file the log is written to.
    pub fn path(&self) -> (r: &str)
        ensures
            r@ == self.path_text(),
    {
        self.path.as_str()
    }

    /// Whether written lines are also echoed to the console.
    pub fn echo(&self) -> (r: bool)
        ensures
            r == self.echoes(),
    {
        self.echo
    }

    /// Whether a message at `level` is written at `now` (milliseconds on a monotonic clock): not
    /// when the same level and message were written less than five minutes ago. When it is, it is
    /// remembered, and messages five minutes old or older are forgotten.
    pub fn write(&mut self, level: &str, message: &str, now: u64) -> (r: bool)
        ensures
            r == may_write(old(self).recent(), log_key_text(level@, message@), now),
            final(self).path_text() == old(self).path_text(),
            final(self).echoes() == old(self).echoes(),
            !r ==> final(self).recent() == old(self).recent(),
            r ==> final(self).recent() == recorded(old(self).recent(), log_key_text(level@, message@), now),
    {
        let key = log_key(level, message);
        self.recent.should_write(key.as_str(), now)
    }

    /// Whether an `INFO` message is written at `now`; see [`Logger::write`].
    pub fn info(&mut self, message: &str, now: u64) -> (r: bool)
        ensures
            r == may_write(old(self).recent(), log_key_text("INFO"@, message@), now),
            final(self).path_text() == old(self).path_text(),
            final(self).echoes() == old(self).echoes(),
            !r ==> final(self).recent() == old(self).recent(),
            r ==> final(self).recent() == recorded(old(self).recent(), log_key_text("INFO"@, message@), now),
    {
        self.write("INFO", message, now)
    }

    /// Whether an `ERROR` message is written at `now`; see [`Logger::write`].
    pub fn error(&mut self, message: &str, now: u64) -> (r: bool)
        ensures
            r == may_write(old(self).recent(), log_key_text("ERROR"@, message@), now),
            final(self).path_text() == old(self).path_text(),
            final(self).echoes() == old(self).echoes(),
            !r ==> final(self).recent() == old(self).recent(),
            r ==> final(self).recent() == recorded(old(self).recent(), log_key_text("ERROR"@, message@), now),
    {
        self.write("ERROR", message, now)
    }
}

} // verus!
