//! Minutes-of-day and blocks on a circular 24-hour day.
use crate::text::{
    all_digits, digit_char, digit_value, digits_value, is_digit, is_first, is_space,
    lemma_first_index, trim_end, trim_start, unsigned_digits, chars_of, decimal, find_char, first_index, pad2, parse_unsigned, parse_unsigned_exec, push_char,
    push_decimal, push_decimal2, subrange_chars, trim, trim_chars,
};
use vstd::prelude::*;
use vstd::string::*;

verus! {

broadcast use vstd::string::group_string_axioms;

/// Minutes in a day.
pub const DAY: u16 = 1440;

/// The message given for a time that is not in 24-hour `HH:MM` form.
pub open spec fn invalid_time_message(value: Seq<char>) -> Seq<char> {
    "Invalid time '"@ + value + "'. Use 24-hour HH:MM format."@
}

/// The minute of the day that `value` writes as `HH:MM`, if it writes one.
///
/// Surrounding whitespace is ignored. The hour has one or two characters and the minutes two
/// (a text with other characters than an optional `+` and digits in either part is rejected
/// whatever its length, so counting characters and counting bytes agree). `24:00` gives 1440
/// when `allow_midnight_end` is set.
pub open spec fn hhmm_value(value: Seq<char>, allow_midnight_end: bool) -> Option<nat> {
    let t = trim(value);
    if !t.contains(':') {
        None
    } else {
        let i = first_index(t, ':');
        let h = t.subrange(0, i);
        let m = t.subrange(i + 1, t.len() as int);
        if h.len() == 0 || h.len() > 2 || m.len() != 2 {
            None
        } else {
            match (parse_unsigned(h, 65535), parse_unsigned(m, 65535)) {
                (Some(hv), Some(mv)) => {
                    if mv > 59 {
                        None
                    } else if hv == 24 && mv == 0 && allow_midnight_end {
                        Some(1440)
                    } else if hv > 23 {
                        None
                    } else {
                        Some(hv * 60 + mv)
                    }
                },
                _ => None,
            }
        }
    }
}

/// Parses `HH:MM` (24-hour). `24:00` is accepted only when `allow_midnight_end` is set.
pub fn parse_hhmm(value: &str, allow_midnight_end: bool) -> (r: Result<u16, String>)
    ensures
        match r {
            Ok(v) => hhmm_value(value@, allow_midnight_end) == Some(v as nat),
            Err(e) => hhmm_value(value@, allow_midnight_end) is None && e@
                == invalid_time_message(value@),
        },
{
    let chars = chars_of(value);
    let t = trim_chars(&chars);
    let colon = find_char(&t, ':');
    let parsed: Option<u16> = match colon {
        None => None,
        Some(i) => {
            assert(t@.contains(':')) by {
                assert(t@[i as int] == ':');
            }
            let n = t.len();
            let h = subrange_chars(&t, 0, i);
            let m = subrange_chars(&t, i + 1, n);
            if h.len() == 0 || h.len() > 2 || m.len() != 2 {
                None
            } else {
                match (parse_unsigned_exec(&h, 65535), parse_unsigned_exec(&m, 65535)) {
                    (Some(hv), Some(mv)) => {
                        if mv > 59 {
                            None
                        } else if hv == 24 && mv == 0 && allow_midnight_end {
                            Some(DAY)
                        } else if hv > 23 {
                            None
                        } else {
                            Some((hv * 60 + mv) as u16)
                        }
                    },
                    _ => None,
                }
            }
        },
    };
    match parsed {
        Some(v) => Ok(v),
        None => {
            let mut e = String::from_str("Invalid time '");
            e.append(value);
            e.append("'. Use 24-hour HH:MM format.");
            proof {
                reveal_strlit("Invalid time '");
                reveal_strlit("'. Use 24-hour HH:MM format.");
            }
            Err(e)
        },
    }
}

/// `HH:MM` with at least two digits in each part.
pub open spec fn hhmm_text(minute: nat) -> Seq<char> {
    pad2(decimal(minute / 60)) + seq![':'] + pad2(decimal(minute % 60))
}

pub fn format_hhmm(minute: u16) -> (s: String)
    ensures
        s@ == hhmm_text(minute as nat),
{
    let mut s = String::new();
    push_decimal2(&mut s, (minute / 60) as u64);
    push_char(&mut s, ':');
    push_decimal2(&mut s, (minute % 60) as u64);
    s
}

/// A length of time as `45m`, `2h` or `2h 45m`.
pub open spec fn duration_text(minutes: nat) -> Seq<char> {
    let h = minutes / 60;
    let m = minutes % 60;
    if h == 0 {
        decimal(m) + seq!['m']
    } else if m == 0 {
        decimal(h) + seq!['h']
    } else {
        decimal(h) + seq!['h', ' '] + decimal(m) + seq!['m']
    }
}

pub fn format_duration(minutes: u32) -> (s: String)
    ensures
        s@ == duration_text(minutes as nat),
{
    let h: u32 = minutes / 60;
    let m: u32 = minutes % 60;
    let mut s = String::new();
    if h == 0 {
        push_decimal(&mut s, m as u64);
        push_char(&mut s, 'm');
    } else if m == 0 {
        push_decimal(&mut s, h as u64);
        push_char(&mut s, 'h');
    } else {
        push_decimal(&mut s, h as u64);
        push_char(&mut s, 'h');
        push_char(&mut s, ' ');
        push_decimal(&mut s, m as u64);
        push_char(&mut s, 'm');
    }
    s
}

/// A blocking period. `start` is included and `end` is not.
///
/// `start` is in `0..1440`. `end` is in `1..=1440`, where `1440` means midnight at the end of the
/// day. When `end < start` the block runs past midnight and finishes on the next day.
#[derive(Clone, Copy, Debug, PartialEq, Eq, Structural, Hash)]
pub struct Block {
    pub start: u16,
    pub end: u16,
}

/// What `Block::new(start, end)` gives: the block, with an end of `00:00` made `24:00`, or why
/// there is none.
pub open spec fn new_block(start: int, end: int) -> Result<Block, Seq<char>> {
    let e = if end == 0 {
        DAY as int
    } else {
        end
    };
    if start >= DAY || e > DAY {
        Err("Times must be between 00:00 and 24:00."@)
    } else if start == e {
        Err("A block's start and end times must be different."@)
    } else {
        Ok(Block { start: start as u16, end: e as u16 })
    }
}

/// `v` brought into `low..=high`.
pub open spec fn clamp(v: int, low: int, high: int) -> int {
    if v < low {
        low
    } else if v > high {
        high
    } else {
        v
    }
}

/// The block `Block::from_start_len(start, len)` builds.
pub open spec fn start_len_block(start: int, len: int) -> Block {
    let s = clamp(start, 0, DAY - 1);
    let max_len = if s == 0 {
        DAY as int
    } else {
        DAY - 1
    };
    let l = clamp(len, 1, max_len);
    let e = if s + l > DAY {
        s + l - DAY
    } else {
        s + l
    };
    Block { start: s as u16, end: e as u16 }
}

impl Block {
    /// The shape every block has: `start` in `0..1440`, `end` in `1..=1440`.
    pub open spec fn wf(self) -> bool {
        self.start < DAY && 1 <= self.end <= DAY
    }

    pub open spec fn spec_is_overnight(self) -> bool {
        self.end < self.start
    }

    /// Length in minutes.
    pub open spec fn len(self) -> int {
        if self.end > self.start {
            self.end - self.start
        } else {
            self.end + DAY - self.start
        }
    }

    /// Whether the block covers minute `m` (`0..1440`) of a circular day.
    pub open spec fn covers(self, m: int) -> bool {
        0 <= m < DAY && (m - self.start) % (DAY as int) < self.len()
    }

    pub open spec fn spec_overlaps(self, other: Block) -> bool {
        let forward = (other.start + DAY - self.start) % (DAY as int);
        let backward = (self.start + DAY - other.start) % (DAY as int);
        forward < self.len() || backward < other.len()
    }

    pub open spec fn spec_covers_same_day(self, minute: int) -> bool {
        minute >= self.start && (self.spec_is_overnight() || minute < self.end)
    }

    pub open spec fn spec_covers_next_day(self, minute: int) -> bool {
        self.spec_is_overnight() && minute < self.end
    }

    /// Builds a block, normalising an end of `00:00` to `24:00`.
    pub fn new(start: u16, end: u16) -> (r: Result<Block, String>)
        ensures
            match r {
                Ok(b) => new_block(start as int, end as int) == Ok::<Block, Seq<char>>(b),
                Err(msg) => new_block(start as int, end as int) == Err::<Block, Seq<char>>(msg@),
            },
    {
        let end = if end == 0 {
            DAY
        } else {
            end
        };
        if start >= DAY || end > DAY {
            return Err(String::from_str("Times must be between 00:00 and 24:00."));
        }
        if start == end {
            return Err(String::from_str("A block's start and end times must be different."));
        }
        Ok(Block { start, end })
    }

    /// Builds a block from a start and a length, clamping to a valid shape.
    pub fn from_start_len(start: i32, len: i32) -> (b: Block)
        ensures
            b == start_len_block(start as int, len as int),
            b.wf(),
            b.start != b.end,
    {
        let start: i32 = if start < 0 {
            0
        } else if start > DAY as i32 - 1 {
            DAY as i32 - 1
        } else {
            start
        };
        let max_len: i32 = if start == 0 {
            DAY as i32
        } else {
            DAY as i32 - 1
        };
        let len: i32 = if len < 1 {
            1
        } else if len > max_len {
            max_len
        } else {
            len
        };
        let mut end: i32 = start + len;
        if end > DAY as i32 {
            end -= DAY as i32;
        }
        Block { start: start as u16, end: end as u16 }
    }

    pub fn is_overnight(&self) -> (r: bool)
        ensures
            r == self.spec_is_overnight(),
    {
        self.end < self.start
    }

    /// Length in minutes.
    pub fn minutes(&self) -> (r: u16)
        requires
            self.wf(),
        ensures
            r == self.len(),
            1 <= r <= DAY,
    {
        if self.end > self.start {
            self.end - self.start
        } else {
            self.end + DAY - self.start
        }
    }

    /// End measured from the start of the day the block begins on (may exceed 1440).
    pub fn end_abs(&self) -> (r: u16)
        requires
            self.wf(),
        ensures
            r == self.start + self.len(),
    {
        self.start + self.minutes()
    }

    /// Whether the block covers `minute` on the day it starts.
    pub fn covers_same_day(&self, minute: u16) -> (r: bool)
        ensures
            r == self.spec_covers_same_day(minute as int),
    {
        minute >= self.start && (self.is_overnight() || minute < self.end)
    }

    /// Whether the block's carry-over covers `minute` on the following day.
    pub fn covers_next_day(&self, minute: u16) -> (r: bool)
        ensures
            r == self.spec_covers_next_day(minute as int),
    {
        self.is_overnight() && minute < self.end
    }

    /// Whether two blocks share any minute on a circular day.
    pub fn overlaps(&self, other: &Block) -> (r: bool)
        requires
            self.wf(),
            other.wf(),
        ensures
            r == self.spec_overlaps(*other),
    {
        let forward = (other.start + DAY - self.start) % DAY;
        let backward = (self.start + DAY - other.start) % DAY;
        forward < self.minutes() || backward < other.minutes()
    }

    /// `HH:MM – HH:MM`.
    pub fn label(&self) -> (s: String)
        ensures
            s@ == hhmm_text(self.start as nat) + " – "@ + hhmm_text(self.end as nat),
    {
        let mut s = format_hhmm(self.start);
        s.append(" – ");
        let e = format_hhmm(self.end);
        s.append(e.as_str());
        s
    }
}

/// No block of `blocks`, but the one at `skip`, overlaps `candidate`.
pub open spec fn fits_spec(blocks: Seq<Block>, skip: Option<usize>, candidate: Block) -> bool {
    forall|i: int|
        0 <= i < blocks.len() && skip != Some(i as usize) ==> !(#[trigger] blocks[i]).spec_overlaps(
            candidate,
        )
}

/// Every block of the sequence has a block's shape.
pub open spec fn all_wf(blocks: Seq<Block>) -> bool {
    forall|i: int| 0 <= i < blocks.len() ==> (#[trigger] blocks[i]).wf()
}

/// Whether `candidate` fits among `blocks` without overlapping, ignoring index `skip`.
pub fn fits(blocks: &[Block], skip: Option<usize>, candidate: &Block) -> (r: bool)
    requires
        all_wf(blocks@),
        candidate.wf(),
    ensures
        r == fits_spec(blocks@, skip, *candidate),
{
    for i in 0..blocks.len()
        invariant
            all_wf(blocks@),
            candidate.wf(),
            forall|j: int|
                0 <= j < i && skip != Some(j as usize) ==> !(#[trigger] blocks@[j]).spec_overlaps(
                    *candidate,
                ),
    {
        let skipped = match skip {
            Some(k) => k == i,
            None => false,
        };
        if !skipped && blocks[i].overlaps(candidate) {
            return false;
        }
    }
    true
}


/// Two blocks overlap exactly when the other one overlaps the first.
pub proof fn lemma_overlaps_symmetric(a: Block, b: Block)
    ensures
        a.spec_overlaps(b) == b.spec_overlaps(a),
{
}

/// A block of the documented shape, with different start and end, is between 1 and 1440 minutes
/// long, and covers its first minute.
pub proof fn lemma_len_range(b: Block)
    requires
        b.wf(),
    ensures
        1 <= b.len() <= DAY,
        b.covers(b.start as int),
{
    assert((b.start - b.start) % (DAY as int) == 0);
}

/// Minutes from `from` forward to `to` on a circular day (both in `0..1440`).
pub open spec fn circular_distance(from: int, to: int) -> int {
    if to >= from {
        to - from
    } else {
        to - from + DAY
    }
}

pub proof fn lemma_circular_distance(from: int, to: int)
    requires
        0 <= from < DAY,
        0 <= to < DAY,
    ensures
        (to - from) % (DAY as int) == circular_distance(from, to),
        (to + DAY - from) % (DAY as int) == circular_distance(from, to),
{
}

/// `overlaps` means that the two blocks share a minute of the circular day.
pub proof fn lemma_overlaps_iff_shared_minute(a: Block, b: Block)
    requires
        a.wf(),
        b.wf(),
    ensures
        a.spec_overlaps(b) <==> exists|m: int| a.covers(m) && b.covers(m),
{
    lemma_len_range(a);
    lemma_len_range(b);
    lemma_circular_distance(a.start as int, b.start as int);
    lemma_circular_distance(b.start as int, a.start as int);
    let f = circular_distance(a.start as int, b.start as int);
    let g = circular_distance(b.start as int, a.start as int);
    if a.spec_overlaps(b) {
        if f < a.len() {
            assert(a.covers(b.start as int) && b.covers(b.start as int));
        } else {
            assert(a.covers(a.start as int) && b.covers(a.start as int));
        }
    }
    assert forall|m: int| a.covers(m) && b.covers(m) implies a.spec_overlaps(b) by {
        lemma_circular_distance(a.start as int, m);
        lemma_circular_distance(b.start as int, m);
        let x = circular_distance(a.start as int, m);
        let y = circular_distance(b.start as int, m);
        if x >= y {
            assert(f == x - y);
        } else {
            assert(g == y - x);
        }
    }
}

/// On the day a block starts and the day after, what it covers is what `covers_same_day` and
/// `covers_next_day` report: the circular minutes it covers.
pub proof fn lemma_covers_by_day(b: Block, m: int)
    requires
        b.wf(),
        b.start != b.end,
        0 <= m < DAY,
    ensures
        b.covers(m) <==> (b.spec_covers_same_day(m) || b.spec_covers_next_day(m)),
{
    let d = DAY as int;
    if m >= b.start {
        assert((m - b.start) % d == m - b.start);
    } else {
        assert((m - b.start) % d == m - b.start + d);
    }
}

/// How many of the minutes `0..n` of the day it starts a block covers.
pub open spec fn same_day_count(b: Block, n: int) -> int
    decreases n,
{
    if n <= 0 {
        0
    } else {
        same_day_count(b, n - 1) + if b.spec_covers_same_day(n - 1) {
            1int
        } else {
            0
        }
    }
}

/// How many of the minutes `0..n` of the next day a block covers.
pub open spec fn next_day_count(b: Block, n: int) -> int
    decreases n,
{
    if n <= 0 {
        0
    } else {
        next_day_count(b, n - 1) + if b.spec_covers_next_day(n - 1) {
            1int
        } else {
            0
        }
    }
}

proof fn lemma_day_counts(b: Block, n: int)
    requires
        b.wf(),
        0 <= n <= DAY,
    ensures
        same_day_count(b, n) == if n <= b.start {
            0
        } else if b.spec_is_overnight() || n <= b.end {
            n - b.start
        } else {
            b.end - b.start
        },
        next_day_count(b, n) == if !b.spec_is_overnight() {
            0
        } else if n <= b.end {
            n
        } else {
            b.end as int
        },
    decreases n,
{
    if n > 0 {
        lemma_day_counts(b, n - 1);
    }
}

/// The minutes a block covers on the day it starts and on the next day add up to its length.
pub proof fn lemma_minutes_by_day(b: Block)
    requires
        b.wf(),
        b.start != b.end,
    ensures
        same_day_count(b, DAY as int) + next_day_count(b, DAY as int) == b.len(),
{
    lemma_day_counts(b, DAY as int);
}

/// `Block::from_start_len` keeps the requested length, clamped to what fits after the start.
pub proof fn lemma_start_len_length(start: int, len: int)
    ensures
        ({
            let s = clamp(start, 0, DAY - 1);
            let max_len = if s == 0 {
                DAY as int
            } else {
                DAY - 1
            };
            let b = start_len_block(start, len);
            b.start == s && b.len() == clamp(len, 1, max_len)
        }),
{
}

pub proof fn lemma_digit_char(k: nat)
    requires
        k < 10,
    ensures
        is_digit(digit_char(k)),
        digit_value(digit_char(k)) == k,
        !is_space(digit_char(k)),
        digit_char(k) != ':',
        digit_char(k) != '+',
{
    let s = seq!['0', '1', '2', '3', '4', '5', '6', '7', '8', '9'];
    assert(s[0] == '0' && s[1] == '1' && s[2] == '2' && s[3] == '3' && s[4] == '4');
    assert(s[5] == '5' && s[6] == '6' && s[7] == '7' && s[8] == '8' && s[9] == '9');
}

/// Two decimal digits with leading zero for a number below 100.
pub proof fn lemma_pad2_digits(n: nat)
    requires
        n < 100,
    ensures
        pad2(decimal(n)).len() == 2,
        pad2(decimal(n))[0] == digit_char(n / 10),
        pad2(decimal(n))[1] == digit_char(n % 10),
        parse_unsigned(pad2(decimal(n)), 65535) == Some(n),
{
    let p = pad2(decimal(n));
    if n < 10 {
        assert(decimal(n) == seq![digit_char(n)]);
        assert(digit_char(0) == '0') by {
            let s = seq!['0', '1', '2', '3', '4', '5', '6', '7', '8', '9'];
            assert(s[0] == '0');
        }
    } else {
        assert(decimal(n / 10) == seq![digit_char(n / 10)]);
        assert(decimal(n) == seq![digit_char(n / 10), digit_char(n % 10)]);
    }
    lemma_digit_char(n / 10);
    lemma_digit_char(n % 10);
    assert(p.len() == 2);
    assert(unsigned_digits(p) == p);
    assert(all_digits(p));
    let q = p.drop_last();
    assert(q.len() == 1 && q.last() == p[0]);
    assert(q.drop_last().len() == 0);
    assert(digits_value(q.drop_last()) == 0);
    assert(digits_value(q) == digit_value(p[0]));
    assert(p.last() == p[1]);
    assert(digits_value(p) == (n / 10) * 10 + n % 10);
}

/// `format_hhmm` writes what `parse_hhmm` reads back: every minute of the day, and `24:00` for
/// the end of the day where a midnight end is allowed.
pub proof fn lemma_hhmm_round_trip(minute: nat, allow_midnight_end: bool)
    requires
        minute <= DAY,
    ensures
        minute < DAY ==> hhmm_value(hhmm_text(minute), allow_midnight_end) == Some(minute),
        minute == DAY ==> hhmm_value(hhmm_text(minute), allow_midnight_end) == (if allow_midnight_end {
            Some(1440nat)
        } else {
            None
        }),
{
    let h = minute / 60;
    let mm = minute % 60;
    lemma_pad2_digits(h);
    lemma_pad2_digits(mm);
    lemma_digit_char(h / 10);
    lemma_digit_char(h % 10);
    lemma_digit_char(mm / 10);
    lemma_digit_char(mm % 10);
    let t = hhmm_text(minute);
    assert(t.len() == 5);
    assert(t[0] == digit_char(h / 10) && t[1] == digit_char(h % 10) && t[2] == ':');
    assert(t[3] == digit_char(mm / 10) && t[4] == digit_char(mm % 10));
    assert(trim_start(t) == t);
    assert(trim_end(t) == t);
    assert(trim(t) == t);
    assert(is_first(t, ':', 2));
    lemma_first_index(t, ':', 2);
    assert(t.contains(':'));
    assert(t.subrange(0, 2) == pad2(decimal(h)));
    assert(t.subrange(3, 5) == pad2(decimal(mm)));
}

/// An hour written with one digit or two, without a leading zero, is read as well: `7:30` and
/// `17:05` give their minute of the day, whether or not an end of `24:00` is allowed.
pub proof fn lemma_hours_without_leading_zero(h: nat, m: nat, allow_midnight_end: bool)
    requires
        h < 24,
        m < 60,
    ensures
        hhmm_value(decimal(h) + ":"@ + pad2(decimal(m)), allow_midnight_end) == Some(h * 60 + m),
{
    lemma_pad2_digits(m);
    lemma_digit_char(h / 10);
    lemma_digit_char(h % 10);
    lemma_digit_char(m / 10);
    lemma_digit_char(m % 10);
    reveal_strlit(":");
    let hd = decimal(h);
    let t = hd + ":"@ + pad2(decimal(m));
    let k = hd.len() as int;
    if h < 10 {
        assert(hd == seq![digit_char(h)]);
        assert(digit_value(digit_char(h)) == h);
        assert(hd.drop_last().len() == 0);
        assert(digits_value(hd.drop_last()) == 0);
        assert(hd.last() == digit_char(h));
        assert(digits_value(hd) == h);
    } else {
        assert(decimal(h / 10) == seq![digit_char(h / 10)]);
        assert(hd == seq![digit_char(h / 10), digit_char(h % 10)]);
        let q = hd.drop_last();
        assert(q == seq![digit_char(h / 10)]);
        assert(q.drop_last().len() == 0);
        assert(digits_value(q.drop_last()) == 0);
        assert(q.last() == digit_char(h / 10));
        assert(digits_value(q) == h / 10);
        assert(hd.last() == digit_char(h % 10));
        assert(digits_value(hd) == (h / 10) * 10 + h % 10);
    }
    assert(unsigned_digits(hd) == hd);
    assert(all_digits(hd));
    assert(parse_unsigned(hd, 65535) == Some(h));
    assert(t.len() == k + 3);
    assert(forall|j: int| 0 <= j < k ==> t[j] == hd[j]);
    assert(t[k] == ':');
    assert(t[k + 1] == digit_char(m / 10) && t[k + 2] == digit_char(m % 10));
    assert(!is_space(t[0]));
    assert(!is_space(t[t.len() - 1]));
    assert(trim_start(t) == t);
    assert(trim_end(t) == t);
    assert(trim(t) == t);
    assert(is_first(t, ':', k));
    lemma_first_index(t, ':', k);
    assert(t.contains(':'));
    assert(t.subrange(0, k) =~= hd);
    assert(t.subrange(k + 1, t.len() as int) =~= pad2(decimal(m)));
}

/// A block written as `HH:MM` texts (the configuration file's form) reads back as itself.
pub proof fn lemma_block_text_round_trip(b: Block)
    requires
        b.wf(),
    ensures
        hhmm_value(hhmm_text(b.start as nat), false) == Some(b.start as nat),
        hhmm_value(hhmm_text(b.end as nat), true) == Some(b.end as nat),
{
    lemma_hhmm_round_trip(b.start as nat, false);
    lemma_hhmm_round_trip(b.end as nat, true);
}

} // verus!
