//! Editing rules of the schedule timeline: where a dragged block may go, where a new block fits,
//! and keeping a lane in start order.
use crate::schedule::Moment;
use crate::text::{decimal, push_decimal};
use crate::config::{lane_is_free, track_lanes, ScheduleMode, Track};
use crate::text::{chars_of, trim, trim_chars};
use crate::time::{
    all_wf, clamp, fits, fits_spec, format_hhmm, hhmm_text, hhmm_value, invalid_time_message,
    lemma_overlaps_iff_shared_minute, lemma_overlaps_symmetric, new_block, parse_hhmm, start_len_block,
    Block, DAY,
};
use vstd::prelude::*;
use vstd::string::*;

verus! {

broadcast use vstd::string::group_string_axioms;

/// Whether `v` lies between `a` and `b`, both included.
pub open spec fn between(v: int, a: int, b: int) -> bool {
    (a <= v <= b) || (b <= v <= a)
}

/// Whether the walk passed over `w`: the block `make` gives for it does not fit among the blocks
/// other than the one at `index`.
pub open spec fn passed_over<F: Fn(i32) -> Block>(make: F, blocks: Seq<Block>, index: usize, w: i32) -> bool {
    exists|b: Block| call_ensures(make, (w,), b) && !fits_spec(blocks, Some(index), b)
}

/// Walks from `target` back towards `initial` until `make(value)` fits among the other blocks.
///
/// The block returned is what `make` gave for a value between `target` and `initial`: the first
/// on that walk that fits among the blocks other than the one at `index`, or, when none does,
/// the one for `initial`.
pub fn clamp_to_free(
    blocks: &[Block],
    index: usize,
    initial: i32,
    target: i32,
    make: impl Fn(i32) -> Block,
) -> (r: Block)
    requires
        all_wf(blocks@),
        forall|v: i32| call_requires(make, (v,)),
        forall|v: i32, b: Block| call_ensures(make, (v,), b) ==> b.wf(),
    ensures
        exists|v: i32|
            {
                &&& between(v as int, target as int, initial as int)
                &&& call_ensures(make, (v,), r)
                &&& fits_spec(blocks@, Some(index), r) || v == initial
                &&& forall|w: i32|
                    #![trigger between(w as int, target as int, v as int)]
                    between(w as int, target as int, v as int) && w != v ==> passed_over(
                        make,
                        blocks@,
                        index,
                        w,
                    )
            },
{
    let direction: i32 = if target > initial {
        -1
    } else {
        1
    };
    let mut value: i32 = target;
    loop
        invariant
            all_wf(blocks@),
            forall|v: i32| call_requires(make, (v,)),
            forall|v: i32, b: Block| call_ensures(make, (v,), b) ==> b.wf(),
            between(value as int, target as int, initial as int),
            direction == (if target > initial {
                -1i32
            } else {
                1i32
            }),
            forall|w: i32|
                #![trigger between(w as int, target as int, value as int)]
                between(w as int, target as int, value as int) && w != value ==> passed_over(
                    make,
                    blocks@,
                    index,
                    w,
                ),
        decreases (if direction < 0 {
            value - initial
        } else {
            initial - value
        }),
    {
        let candidate = make(value);
        if fits(blocks, Some(index), &candidate) || value == initial {
            return candidate;
        }
        proof {
            assert(passed_over(make, blocks@, index, value));
            let next = (value + direction) as i32;
            assert forall|w: i32|
                #![trigger between(w as int, target as int, next as int)]
                between(w as int, target as int, next as int) && w != next implies passed_over(
                    make,
                    blocks@,
                    index,
                    w,
                ) by {
                if w != value {
                    assert(between(w as int, target as int, value as int));
                }
            }
        }
        value = value + direction;
    }
}

/// `sort_by_key` on the blocks' starts: the same blocks, in start order (`slice::sort_by_key`;
/// its documentation promises a sort that keeps the elements).
#[verifier::external_body]
fn sort_by_start(blocks: &mut Vec<Block>)
    ensures
        final(blocks)@.to_multiset() == old(blocks)@.to_multiset(),
        forall|i: int, j: int|
            0 <= i <= j < final(blocks)@.len() ==> final(blocks)@[i].start <= final(blocks)@[j].start,
{
    blocks.sort_by_key(|b| b.start);
}

/// `i` is the first position of `b` in `blocks`.
pub open spec fn is_first_position(blocks: Seq<Block>, b: Block, i: int) -> bool {
    0 <= i < blocks.len() && blocks[i] == b && forall|j: int| 0 <= j < i ==> blocks[j] != b
}

/// Sorts a lane by start time and returns the new index of the block that was at `index`.
pub fn sort_lane(blocks: &mut Vec<Block>, index: Option<usize>) -> (r: Option<usize>)
    ensures
        final(blocks)@.to_multiset() == old(blocks)@.to_multiset(),
        forall|i: int, j: int|
            0 <= i <= j < final(blocks)@.len() ==> final(blocks)@[i].start <= final(blocks)@[j].start,
        match index {
            Some(i) if i < old(blocks)@.len() => r matches Some(k) && is_first_position(
                final(blocks)@,
                old(blocks)@[i as int],
                k as int,
            ),
            _ => r is None,
        },
{
    broadcast use vstd::seq_lib::group_to_multiset_ensures;

    let keep: Option<Block> = match index {
        Some(i) => if i < blocks.len() {
            Some(blocks[i])
        } else {
            None
        },
        None => None,
    };
    let ghost before = blocks@;
    sort_by_start(blocks);
    match keep {
        None => None,
        Some(b) => {
            proof {
                let i = index->0 as int;
                assert(before.contains(b)) by {
                    assert(before[i] == b);
                }
                assert(before.to_multiset().count(b) > 0);
                assert(blocks@.contains(b));
            }
            let n = blocks.len();
            for k in 0..n
                invariant
                    n == blocks@.len(),
                    blocks@.contains(b),
                    blocks@.to_multiset() == before.to_multiset(),
                    old(blocks)@ == before,
                    index matches Some(i) && i < before.len() && before[i as int] == b,
                    forall|i: int, j: int|
                        0 <= i <= j < blocks@.len() ==> blocks@[i].start <= blocks@[j].start,
                    forall|j: int| 0 <= j < k ==> blocks@[j] != b,
            {
                if blocks[k] == b {
                    return Some(k);
                }
            }
            proof {
                let w = choose|w: int| 0 <= w < blocks@.len() && blocks@[w] == b;
                assert(blocks@[w] != b);
            }
            None
        },
    }
}

/// The lengths tried for a new block, longest first.
pub open spec fn new_block_lengths() -> Seq<int> {
    seq![60, 45, 30, 15, 5]
}

/// Candidate `k` for a new block near `preferred`: every length, longest first, and for each
/// length every start from `preferred` on in steps of 15 minutes, around the day.
pub open spec fn new_block_candidate(preferred: int, k: int) -> Block {
    let len = new_block_lengths()[k / 96];
    let start = (preferred + 15 * (k % 96)) % (DAY as int);
    start_len_block(start, len)
}

/// Finds room for a new block near `preferred` (in minutes), trying shorter lengths if needed.
pub fn place_new_block(blocks: &[Block], preferred: i32) -> (r: Option<Block>)
    requires
        all_wf(blocks@),
    ensures
        match r {
            Some(b) => exists|k: int|
                0 <= k < 480 && b == new_block_candidate(preferred as int, k) && fits_spec(
                    blocks@,
                    None,
                    b,
                ) && forall|j: int|
                    0 <= j < k ==> !fits_spec(blocks@, None, #[trigger] new_block_candidate(preferred as int, j)),
            None => forall|j: int|
                0 <= j < 480 ==> !fits_spec(blocks@, None, #[trigger] new_block_candidate(preferred as int, j)),
        },
{
    let lengths: [i32; 5] = [60, 45, 30, 15, 5];
    assert(lengths@.map_values(|l: i32| l as int) =~= new_block_lengths());
    for li in 0..5
        invariant
            all_wf(blocks@),
            lengths@.map_values(|l: i32| l as int) == new_block_lengths(),
            forall|j: int|
                0 <= j < 96 * li ==> !fits_spec(blocks@, None, #[trigger] new_block_candidate(preferred as int, j)),
    {
        let len = lengths[li];
        let mut offset: i32 = 0;
        while offset < DAY as i32
            invariant
                0 <= li < 5,
                len == new_block_lengths()[li as int],
                all_wf(blocks@),
                0 <= offset <= DAY,
                offset % 15 == 0,
                forall|j: int|
                    0 <= j < 96 * li + offset / 15 ==> !fits_spec(blocks@, None, #[trigger] new_block_candidate(preferred as int, j)),
            decreases DAY - offset,
        {
            let sum: i64 = preferred as i64 + offset as i64;
            let m: i64 = sum % 1440;
            let start: i32 = if m < 0 {
                (m + 1440) as i32
            } else {
                m as i32
            };
            let candidate = Block::from_start_len(start, len);
            proof {
                let k = 96 * li + offset / 15;
                assert(k / 96 == li && k % 96 == offset / 15);
                assert(start == (preferred + 15 * (k % 96)) % (DAY as int));
                assert(candidate == new_block_candidate(preferred as int, k));
            }
            if fits(blocks, None, &candidate) {
                return Some(candidate);
            }
            offset = offset + 15;
        }
    }
    None
}

pub open spec fn count_text_spec(count: nat) -> Seq<char> {
    decimal(count) + if count == 1 {
        " app is"@
    } else {
        " apps are"@
    }
}

/// `1 app is`, `3 apps are`.
pub fn count_text(count: usize) -> (r: String)
    ensures
        r@ == count_text_spec(count as nat),
{
    let mut s = String::new();
    push_decimal(&mut s, count as u64);
    if count == 1 {
        s.append(" app is");
    } else {
        s.append(" apps are");
    }
    s
}

/// The summary of a lane's blocks: `no blocks`, `1 block`, `3 blocks`.
pub open spec fn block_count_text_spec(count: nat) -> Seq<char> {
    if count == 0 {
        "no blocks"@
    } else if count == 1 {
        "1 block"@
    } else {
        decimal(count) + " blocks"@
    }
}

pub fn block_count_text(count: usize) -> (r: String)
    ensures
        r@ == block_count_text_spec(count as nat),
{
    if count == 0 {
        String::from_str("no blocks")
    } else if count == 1 {
        String::from_str("1 block")
    } else {
        let mut s = String::new();
        push_decimal(&mut s, count as u64);
        s.append(" blocks");
        s
    }
}

/// Which part of a block a drag holds.
#[derive(Clone, Copy, Debug, PartialEq, Eq, Structural)]
pub enum DragKind {
    /// The body: the block moves, keeping its length.
    Move,
    /// The left edge: the start moves, the end stays.
    Start,
    /// The right edge: the end moves, the start stays.
    End,
    /// The right edge of an overnight block's carry-over, shown in the next day's lane.
    Tail,
}

pub open spec fn min(a: int, b: int) -> int {
    if a <= b {
        a
    } else {
        b
    }
}

pub open spec fn max(a: int, b: int) -> int {
    if a >= b {
        a
    } else {
        b
    }
}

/// The block a drag of `kind` makes from `initial` for the value `v` (a start or an end).
pub open spec fn drag_candidate(kind: DragKind, initial: Block, v: int) -> Block {
    match kind {
        DragKind::Move => start_len_block(v, initial.len()),
        DragKind::Start => start_len_block(v, initial.start + initial.len() - v),
        DragKind::End => start_len_block(initial.start as int, v - initial.start),
        DragKind::Tail => start_len_block(initial.start as int, DAY + v - initial.start),
    }
}

/// The value a drag of `kind` starts from.
pub open spec fn drag_origin(kind: DragKind, initial: Block) -> int {
    match kind {
        DragKind::Move | DragKind::Start => initial.start as int,
        DragKind::End => min(initial.start + initial.len(), DAY as int),
        DragKind::Tail => if initial.spec_is_overnight() {
            initial.end as int
        } else {
            0
        },
    }
}

/// Where the pointer (snapped to `step` minutes) asks the value of a drag of `kind` to go: kept
/// within the day, and leaving a block of at least `step` minutes.
pub open spec fn drag_target(kind: DragKind, initial: Block, snapped: int, step: int) -> int {
    match kind {
        DragKind::Move => clamp(snapped, 0, DAY - 1),
        DragKind::Start => {
            let end = initial.start + initial.len();
            let low = max(end - (DAY - 1), 0);
            let high = min(end - step, DAY - 1);
            clamp(snapped, low, max(high, low))
        },
        DragKind::End => clamp(snapped, min(initial.start + step, DAY as int), DAY as int),
        DragKind::Tail => clamp(snapped, 0, max(initial.start - step, 0)),
    }
}

/// Whether `r` is where the walk of a drag of `kind` from `target` back towards `origin` ends:
/// the block for the first value on that walk that fits among the blocks other than the one at
/// `index`, or the block for `origin` when none before it does.
pub open spec fn walk_ends_on(
    blocks: Seq<Block>,
    index: usize,
    kind: DragKind,
    initial: Block,
    target: int,
    origin: int,
    r: Block,
) -> bool {
    exists|v: int|
        {
            &&& between(v, target, origin)
            &&& r == drag_candidate(kind, initial, v)
            &&& fits_spec(blocks, Some(index), r) || v == origin
            &&& forall|w: int|
                #![trigger drag_candidate(kind, initial, w)]
                between(w, target, v) && w != v ==> !fits_spec(
                    blocks,
                    Some(index),
                    drag_candidate(kind, initial, w),
                )
        }
}

/// A block that runs to midnight from the start of `b` shares no minute that `b` does not cover,
/// when `b` runs past midnight.
proof fn lemma_to_midnight_within(b: Block, other: Block)
    requires
        b.wf(),
        other.wf(),
        b.spec_is_overnight(),
        !other.spec_overlaps(b),
    ensures
        !other.spec_overlaps(start_len_block(b.start as int, DAY - b.start)),
{
    let sub = start_len_block(b.start as int, DAY - b.start);
    assert(sub.start == b.start && sub.end == DAY);
    lemma_overlaps_iff_shared_minute(other, b);
    lemma_overlaps_iff_shared_minute(other, sub);
    assert forall|m: int| sub.covers(m) implies b.covers(m) by {}
}

/// Where a drag begins is where the block already was: when that block fits among the others,
/// so does the block for the drag's starting value.
proof fn lemma_origin_fits(blocks: Seq<Block>, index: usize, kind: DragKind, initial: Block)
    requires
        all_wf(blocks),
        initial.wf(),
        initial.start != initial.end,
        fits_spec(blocks, Some(index), initial),
        kind == DragKind::Tail ==> initial.spec_is_overnight(),
    ensures
        fits_spec(blocks, Some(index), drag_candidate(kind, initial, drag_origin(kind, initial))),
{
    let c = drag_candidate(kind, initial, drag_origin(kind, initial));
    if kind == DragKind::End && initial.start + initial.len() > DAY {
        assert(c == start_len_block(initial.start as int, DAY - initial.start));
        assert forall|i: int| 0 <= i < blocks.len() && Some(index) != Some(i as usize) implies !(
        #[trigger] blocks[i]).spec_overlaps(c) by {
            lemma_to_midnight_within(initial, blocks[i]);
        }
    } else {
        assert(c == initial);
    }
}

/// Where a walk ends fits when the block for its starting value does.
proof fn lemma_walk_end_fits(
    blocks: Seq<Block>,
    index: usize,
    kind: DragKind,
    initial: Block,
    target: int,
    origin: int,
    r: Block,
)
    requires
        walk_ends_on(blocks, index, kind, initial, target, origin, r),
        fits_spec(blocks, Some(index), drag_candidate(kind, initial, origin)),
    ensures
        fits_spec(blocks, Some(index), r),
{
}

/// A lane with no two overlapping blocks: each of its blocks fits among the others.
pub proof fn lemma_free_lane_blocks_fit(blocks: Seq<Block>, i: usize)
    requires
        lane_is_free(blocks),
        i < blocks.len() <= usize::MAX,
    ensures
        fits_spec(blocks, Some(i), blocks[i as int]),
{
    assert forall|j: int| 0 <= j < blocks.len() && Some(i) != Some(j as usize) implies !(
    #[trigger] blocks[j]).spec_overlaps(blocks[i as int]) by {
        assert(j != i);
        lemma_overlaps_symmetric(blocks[j], blocks[i as int]);
    }
}

/// Editing a lane keeps it free of overlapping blocks: putting in place of one of its blocks a
/// block that fits among the others, adding one that fits among all of them, or removing one.
pub proof fn lemma_edits_keep_lane_free(blocks: Seq<Block>, i: usize, b: Block)
    requires
        lane_is_free(blocks),
        blocks.len() <= usize::MAX,
    ensures
        i < blocks.len() && fits_spec(blocks, Some(i), b) ==> lane_is_free(
            blocks.update(i as int, b),
        ),
        fits_spec(blocks, None, b) ==> lane_is_free(blocks.push(b)),
        i < blocks.len() ==> lane_is_free(blocks.remove(i as int)),
{
    if i < blocks.len() && fits_spec(blocks, Some(i), b) {
        let u = blocks.update(i as int, b);
        assert forall|x: int, y: int| 0 <= x < y < u.len() implies !(#[trigger] u[y]).spec_overlaps(
            #[trigger] u[x],
        ) by {
            if y == i {
                assert(Some(i) != Some(x as usize));
                assert(!blocks[x].spec_overlaps(b));
                lemma_overlaps_symmetric(blocks[x], b);
            } else if x == i {
                assert(Some(i) != Some(y as usize));
                assert(!blocks[y].spec_overlaps(b));
            }
        }
    }
    if fits_spec(blocks, None, b) {
        let u = blocks.push(b);
        assert forall|x: int, y: int| 0 <= x < y < u.len() implies !(#[trigger] u[y]).spec_overlaps(
            #[trigger] u[x],
        ) by {
            if y == blocks.len() {
                assert(!blocks[x].spec_overlaps(b));
                lemma_overlaps_symmetric(blocks[x], b);
            }
        }
    }
    if i < blocks.len() {
        let u = blocks.remove(i as int);
        assert forall|x: int, y: int| 0 <= x < y < u.len() implies !(#[trigger] u[y]).spec_overlaps(
            #[trigger] u[x],
        ) by {
            let bx = if x < i { x } else { x + 1 };
            let by_ = if y < i { y } else { y + 1 };
            assert(u[x] == blocks[bx] && u[y] == blocks[by_]);
        }
    }
}

/// Where a drag of `kind` leaves the block at `index` (which was `initial` when the drag began),
/// with the pointer at the minute `snapped`, rounded to `step` minutes (5, or 1 while Shift is
/// held).
///
/// The value (start or end) walks from the target back towards where it began until the block
/// fits among the lane's other blocks; where nothing fits, the block stays as it began.
pub fn dragged_block(
    blocks: &[Block],
    index: usize,
    kind: DragKind,
    initial: Block,
    snapped: i32,
    step: i32,
) -> (r: Block)
    requires
        all_wf(blocks@),
        initial.wf(),
        step == 1 || step == 5,
    ensures
        walk_ends_on(
            blocks@,
            index,
            kind,
            initial,
            drag_target(kind, initial, snapped as int, step as int),
            drag_origin(kind, initial),
            r,
        ),
        fits_spec(blocks@, Some(index), initial) && initial.start != initial.end && (kind
            == DragKind::Tail ==> initial.spec_is_overnight()) ==> fits_spec(blocks@, Some(index), r),
{
    let r = drag_walk(blocks, index, kind, initial, snapped, step);
    proof {
        if fits_spec(blocks@, Some(index), initial) && initial.start != initial.end && (kind
            == DragKind::Tail ==> initial.spec_is_overnight()) {
            lemma_origin_fits(blocks@, index, kind, initial);
            lemma_walk_end_fits(
                blocks@,
                index,
                kind,
                initial,
                drag_target(kind, initial, snapped as int, step as int),
                drag_origin(kind, initial),
                r,
            );
        }
    }
    r
}

/// The walk of a drag, as `dragged_block` describes it.
fn drag_walk(
    blocks: &[Block],
    index: usize,
    kind: DragKind,
    initial: Block,
    snapped: i32,
    step: i32,
) -> (r: Block)
    requires
        all_wf(blocks@),
        initial.wf(),
        step == 1 || step == 5,
    ensures
        walk_ends_on(
            blocks@,
            index,
            kind,
            initial,
            drag_target(kind, initial, snapped as int, step as int),
            drag_origin(kind, initial),
            r,
        ),
{
    let o = initial;
    let start = o.start as i32;
    let len = o.minutes() as i32;
    let end = o.end_abs() as i32;
    let day = DAY as i32;
    match kind {
        DragKind::Move => {
            let target = if snapped < 0 {
                0
            } else if snapped > day - 1 {
                day - 1
            } else {
                snapped
            };
            let make = |v: i32| -> (b: Block)
                ensures
                    b == drag_candidate(DragKind::Move, o, v as int),
                    b.wf(),
                { Block::from_start_len(v, len) };
            clamp_to_free(blocks, index, start, target, make)
        },
        DragKind::Start => {
            let low = if end - (day - 1) > 0 {
                end - (day - 1)
            } else {
                0
            };
            let high = if end - step < day - 1 {
                end - step
            } else {
                day - 1
            };
            let top = if high > low {
                high
            } else {
                low
            };
            let target = if snapped < low {
                low
            } else if snapped > top {
                top
            } else {
                snapped
            };
            let make = |v: i32| -> (b: Block)
                ensures
                    b == drag_candidate(DragKind::Start, o, v as int),
                    b.wf(),
                {
                    if v < -3000 {
                        Block::from_start_len(v, 2000)
                    } else if v > 3000 {
                        Block::from_start_len(v, -2000)
                    } else {
                        Block::from_start_len(v, end - v)
                    }
                };
            clamp_to_free(blocks, index, start, target, make)
        },
        DragKind::End => {
            let low = if start + step < day {
                start + step
            } else {
                day
            };
            let target = if snapped < low {
                low
            } else if snapped > day {
                day
            } else {
                snapped
            };
            let origin = if end < day {
                end
            } else {
                day
            };
            let make = |v: i32| -> (b: Block)
                ensures
                    b == drag_candidate(DragKind::End, o, v as int),
                    b.wf(),
                {
                    if v < -3000 {
                        Block::from_start_len(start, -2000)
                    } else if v > 3000 {
                        Block::from_start_len(start, 2000)
                    } else {
                        Block::from_start_len(start, v - start)
                    }
                };
            clamp_to_free(blocks, index, origin, target, make)
        },
        DragKind::Tail => {
            let high = if start - step > 0 {
                start - step
            } else {
                0
            };
            let target = if snapped < 0 {
                0
            } else if snapped > high {
                high
            } else {
                snapped
            };
            let origin = if o.is_overnight() {
                o.end as i32
            } else {
                0
            };
            let make = |v: i32| -> (b: Block)
                ensures
                    b == drag_candidate(DragKind::Tail, o, v as int),
                    b.wf(),
                {
                    if v < -3000 {
                        Block::from_start_len(start, -2000)
                    } else if v > 3000 {
                        Block::from_start_len(start, 2000)
                    } else {
                        Block::from_start_len(start, day + v - start)
                    }
                };
            clamp_to_free(blocks, index, origin, target, make)
        },
    }
}

/// The block a double-click at minute `snapped` adds: from there (kept at least five minutes
/// before midnight), the longest of 60, 45, 30, 15 and 5 minutes that fits.
pub open spec fn click_candidate(snapped: int, k: int) -> Block {
    start_len_block(clamp(snapped, 0, DAY - 5), new_block_lengths()[k])
}

pub fn block_at(blocks: &[Block], snapped: i32) -> (r: Option<Block>)
    requires
        all_wf(blocks@),
    ensures
        match r {
            Some(b) => exists|k: int|
                0 <= k < 5 && b == click_candidate(snapped as int, k) && fits_spec(blocks@, None, b)
                    && forall|j: int| 0 <= j < k ==> !fits_spec(blocks@, None, #[trigger] click_candidate(snapped as int, j)),
            None => forall|j: int| 0 <= j < 5 ==> !fits_spec(blocks@, None, #[trigger] click_candidate(snapped as int, j)),
        },
{
    let start = if snapped < 0 {
        0
    } else if snapped > DAY as i32 - 5 {
        DAY as i32 - 5
    } else {
        snapped
    };
    let lengths: [i32; 5] = [60, 45, 30, 15, 5];
    assert(lengths@.map_values(|l: i32| l as int) =~= new_block_lengths());
    for k in 0..5
        invariant
            all_wf(blocks@),
            start == clamp(snapped as int, 0, DAY - 5),
            lengths@.map_values(|l: i32| l as int) == new_block_lengths(),
            forall|j: int| 0 <= j < k ==> !fits_spec(blocks@, None, #[trigger] click_candidate(snapped as int, j)),
    {
        let candidate = Block::from_start_len(start, lengths[k]);
        assert(candidate == click_candidate(snapped as int, k as int));
        if fits(blocks, None, &candidate) {
            return Some(candidate);
        }
    }
    None
}

/// What typing `text` into the start (or, with `end`, the end) field of `block` does, among the
/// lane's other blocks: nothing when the trimmed text is what the field showed; the new block
/// when the time parses, makes a valid block, and fits; otherwise the message to show.
pub open spec fn edit_outcome(blocks: Seq<Block>, index: int, block: Block, text: Seq<char>, end: bool) -> Result<Option<Block>, Seq<char>> {
    let shown = hhmm_text(if end {
        block.end as nat
    } else {
        block.start as nat
    });
    if trim(text) == shown {
        Ok(None)
    } else {
        match hhmm_value(text, end) {
            None => Err(invalid_time_message(text)),
            Some(minute) => {
                let made = if end {
                    new_block(block.start as int, minute as int)
                } else {
                    new_block(minute as int, block.end as int)
                };
                match made {
                    Err(message) => Err(message),
                    Ok(candidate) => if fits_spec(blocks, Some(index as usize), candidate) {
                        Ok(Some(candidate))
                    } else {
                        Err("That time would overlap another block on this lane."@)
                    },
                }
            },
        }
    }
}

/// Applies a typed start or end time to the block at `index`; see [`edit_outcome`].
pub fn edited_block(blocks: &[Block], index: usize, text: &str, end: bool) -> (r: Result<Option<Block>, String>)
    requires
        all_wf(blocks@),
        index < blocks@.len(),
    ensures
        match r {
            Ok(b) => edit_outcome(blocks@, index as int, blocks@[index as int], text@, end) == Ok::<Option<Block>, Seq<char>>(b),
            Err(m) => edit_outcome(blocks@, index as int, blocks@[index as int], text@, end) == Err::<Option<Block>, Seq<char>>(m@),
        },
{
    let block = blocks[index];
    let current = format_hhmm(if end {
        block.end
    } else {
        block.start
    });
    let trimmed = trim_chars(&chars_of(text));
    let shown = chars_of(current.as_str());
    let mut same = trimmed.len() == shown.len();
    let mut i: usize = 0;
    while same && i < shown.len()
        invariant
            same ==> trimmed@.len() == shown@.len(),
            i <= shown@.len(),
            same ==> forall|j: int| 0 <= j < i ==> trimmed@[j] == shown@[j],
            !same ==> trimmed@ != shown@,
        decreases shown@.len() - i,
    {
        if trimmed[i] != shown[i] {
            same = false;
        }
        i = i + 1;
    }
    if same {
        assert(trimmed@ =~= shown@);
        return Ok(None);
    }
    let minute = match parse_hhmm(text, end) {
        Ok(m) => m,
        Err(e) => {
            return Err(e);
        },
    };
    let made = if end {
        Block::new(block.start, minute)
    } else {
        Block::new(minute, block.end)
    };
    match made {
        Err(message) => Err(message),
        Ok(candidate) => {
            if fits(blocks, Some(index), &candidate) {
                Ok(Some(candidate))
            } else {
                Err(String::from_str("That time would overlap another block on this lane."))
            }
        },
    }
}

/// The lanes a lane's blocks can be copied to: every other lane of the mode, in order.
pub fn copy_targets(mode: ScheduleMode, lane: Track) -> (r: Vec<Track>)
    ensures
        r@ == track_lanes(mode).filter(|t: Track| t != lane),
{
    let lanes = Track::lanes(mode);
    let mut r: Vec<Track> = Vec::new();
    for i in 0..lanes.len()
        invariant
            lanes@ == track_lanes(mode),
            r@ == lanes@.take(i as int).filter(|t: Track| t != lane),
    {
        let t = lanes[i];
        proof {
            assert(lanes@.take(i + 1).drop_last() == lanes@.take(i as int));
            lanes@.take(i as int).lemma_filter_push(t, |t: Track| t != lane);
            assert(lanes@.take(i as int).push(t) == lanes@.take(i + 1));
        }
        if t != lane {
            r.push(t);
        }
    }
    assert(lanes@.take(lanes@.len() as int) == lanes@);
    r
}

/// The lane shown: the selected one while it belongs to the mode's lanes; otherwise today's.
pub fn lane_to_show(mode: ScheduleMode, selected: Track, weekday_index: u32) -> (r: Track)
    ensures
        r == if track_lanes(mode).contains(selected) {
            selected
        } else {
            crate::config::track_for_day(mode, weekday_index)
        },
{
    let lanes = Track::lanes(mode);
    for i in 0..lanes.len()
        invariant
            lanes@ == track_lanes(mode),
            forall|j: int| 0 <= j < i ==> lanes@[j] != selected,
    {
        if lanes[i] == selected {
            assert(lanes@[i as int] == selected);
            return selected;
        }
    }
    Track::for_day(mode, weekday_index)
}

} // verus!
