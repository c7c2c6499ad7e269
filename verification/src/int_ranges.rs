//! Sets of integers represented as lists of closed intervals.
//!
//! A bound of `None` means the interval is unbounded on that side.  The
//! operations keep their results normalized: valid intervals, ordered by
//! start, with a gap of at least one integer between neighbours.

use std::cmp::Ordering;
use vstd::prelude::*;

verus! {

/// A closed interval `[start, end]`; `None` stands for an unbounded side.
#[derive(Clone, Copy, Debug)]
pub struct IntInterval {
    pub start: Option<i64>,
    pub end: Option<i64>,
}

/// A set of integers given by a list of intervals.
#[derive(Debug)]
pub struct IntRangeSet {
    intervals: Vec<IntInterval>,
}

// ---------------------------------------------------------------------------
// Meaning of intervals
// ---------------------------------------------------------------------------

/// `x` lies inside the interval.
pub open spec fn in_interval(iv: IntInterval, x: int) -> bool {
    &&& (match iv.start {
        Some(s) => s <= x,
        None => true,
    })
    &&& (match iv.end {
        Some(e) => x <= e,
        None => true,
    })
}

/// An interval is valid unless both bounds are present and out of order.
pub open spec fn interval_is_valid(iv: IntInterval) -> bool {
    match (iv.start, iv.end) {
        (Some(s), Some(e)) => s <= e,
        _ => true,
    }
}

/// `x` lies inside one of the intervals of `s`.
pub open spec fn in_ranges(s: Seq<IntInterval>, x: int) -> bool {
    exists|i: int| 0 <= i < s.len() && #[trigger] in_interval(s[i], x)
}

/// The set of integers that a list of intervals denotes.
pub open spec fn ranges_set(s: Seq<IntInterval>) -> Set<int> {
    Set::new(|x: int| in_ranges(s, x))
}

/// Every interval of `s` is valid.
pub open spec fn all_valid(s: Seq<IntInterval>) -> bool {
    forall|i: int| 0 <= i < s.len() ==> #[trigger] interval_is_valid(s[i])
}

/// `a` ends before `b` starts and there is at least one integer between
/// them; an end at `i64::MAX` counts as separated, since one past it is not
/// representable.
pub open spec fn separated(a: IntInterval, b: IntInterval) -> bool {
    match (a.end, b.start) {
        (Some(e), Some(s)) => e == i64::MAX || e + 1 < s,
        _ => false,
    }
}

/// The normal form kept by every operation of `IntRangeSet`.
pub open spec fn normalized(s: Seq<IntInterval>) -> bool {
    &&& all_valid(s)
    &&& forall|k: int| 0 <= k < s.len() - 1 ==> #[trigger] separated(s[k], s[k + 1])
}

/// No start sits at `i64::MIN` and no end at `i64::MAX`.
pub open spec fn bounds_inside(s: Seq<IntInterval>) -> bool {
    forall|i: int|
        0 <= i < s.len() ==> (#[trigger] s[i]).start != Some(i64::MIN) && s[i].end != Some(
            i64::MAX,
        )
}

// ---------------------------------------------------------------------------
// Bound arithmetic
// ---------------------------------------------------------------------------

pub open spec fn spec_max_start(left: Option<i64>, right: Option<i64>) -> Option<i64> {
    match (left, right) {
        (Some(l), Some(r)) => Some(if l >= r { l } else { r }),
        (Some(l), None) => Some(l),
        (None, Some(r)) => Some(r),
        (None, None) => None,
    }
}

pub open spec fn spec_min_end(left: Option<i64>, right: Option<i64>) -> Option<i64> {
    match (left, right) {
        (Some(l), Some(r)) => Some(if l <= r { l } else { r }),
        (Some(l), None) => Some(l),
        (None, Some(r)) => Some(r),
        (None, None) => None,
    }
}

pub open spec fn spec_max_end(left: Option<i64>, right: Option<i64>) -> Option<i64> {
    match (left, right) {
        (Some(l), Some(r)) => Some(if l >= r { l } else { r }),
        _ => None,
    }
}

/// The larger of two lower bounds, where `None` is minus infinity.
pub fn max_start(left: Option<i64>, right: Option<i64>) -> (r: Option<i64>)
    ensures
        r == spec_max_start(left, right),
{
    match (left, right) {
        (Some(l), Some(r)) => Some(if l >= r { l } else { r }),
        (Some(l), None) => Some(l),
        (None, Some(r)) => Some(r),
        (None, None) => None,
    }
}

/// The smaller of two upper bounds, where `None` is plus infinity.
pub fn min_end(left: Option<i64>, right: Option<i64>) -> (r: Option<i64>)
    ensures
        r == spec_min_end(left, right),
{
    match (left, right) {
        (Some(l), Some(r)) => Some(if l <= r { l } else { r }),
        (Some(l), None) => Some(l),
        (None, Some(r)) => Some(r),
        (None, None) => None,
    }
}

/// The larger of two upper bounds, where `None` is plus infinity.
pub fn max_end(left: Option<i64>, right: Option<i64>) -> (r: Option<i64>)
    ensures
        r == spec_max_end(left, right),
{
    match (left, right) {
        (Some(l), Some(r)) => Some(if l >= r { l } else { r }),
        _ => None,
    }
}

/// Whether an interval is valid (its bounds are not out of order).
pub fn interval_valid(interval: &IntInterval) -> (r: bool)
    ensures
        r == interval_is_valid(*interval),
{
    match (interval.start, interval.end) {
        (Some(start), Some(end)) => start <= end,
        _ => true,
    }
}

/// Three-way comparison of interval starts, with an unbounded start first.
pub fn compare_interval_start(left: &IntInterval, right: &IntInterval) -> (r: Ordering)
    ensures
        (r == Ordering::Less) == !start_le(right.start, left.start),
        (r == Ordering::Greater) == !start_le(left.start, right.start),
{
    match (left.start, right.start) {
        (None, None) => Ordering::Equal,
        (None, Some(_)) => Ordering::Less,
        (Some(_), None) => Ordering::Greater,
        (Some(l), Some(r)) => {
            if l < r {
                Ordering::Less
            } else if l == r {
                Ordering::Equal
            } else {
                Ordering::Greater
            }
        },
    }
}

/// Order of interval starts: an unbounded start comes first.
pub open spec fn start_le(a: Option<i64>, b: Option<i64>) -> bool {
    match (a, b) {
        (None, _) => true,
        (Some(_), None) => false,
        (Some(x), Some(y)) => x <= y,
    }
}

pub open spec fn spec_intersect_interval(left: IntInterval, right: IntInterval) -> Option<
    IntInterval,
> {
    let iv = IntInterval {
        start: spec_max_start(left.start, right.start),
        end: spec_min_end(left.end, right.end),
    };
    if interval_is_valid(iv) {
        Some(iv)
    } else {
        None
    }
}

/// The common part of two intervals, if there is one.
pub fn intersect_interval(left: &IntInterval, right: &IntInterval) -> (r: Option<IntInterval>)
    ensures
        r == spec_intersect_interval(*left, *right),
        match r {
            Some(iv) => forall|x: int|
                in_interval(iv, x) <==> in_interval(*left, x) && in_interval(*right, x),
            None => forall|x: int| !(in_interval(*left, x) && in_interval(*right, x)),
        },
{
    let start = max_start(left.start, right.start);
    let end = min_end(left.end, right.end);
    let interval = IntInterval { start, end };
    if interval_valid(&interval) {
        Some(interval)
    } else {
        None
    }
}

/// One below a lower bound, computed with `checked_sub`: `None` for a bound at `i64::MIN`.
pub open spec fn bound_below(b: Option<i64>) -> Option<i64> {
    match b {
        Some(s) => if s == i64::MIN {
            None
        } else {
            Some((s - 1) as i64)
        },
        None => None,
    }
}

/// One above an upper bound, computed with `checked_add`: `None` for a bound at `i64::MAX`.
pub open spec fn bound_above(b: Option<i64>) -> Option<i64> {
    match b {
        Some(e) => if e == i64::MAX {
            None
        } else {
            Some((e + 1) as i64)
        },
        None => None,
    }
}

pub open spec fn spec_subtract_interval(base: IntInterval, remove: IntInterval) -> Seq<
    IntInterval,
> {
    match spec_intersect_interval(base, remove) {
        None => seq![base],
        Some(overlap) => {
            let left = IntInterval { start: base.start, end: bound_below(overlap.start) };
            let right = IntInterval { start: bound_above(overlap.end), end: base.end };
            let l = if overlap.start != base.start && interval_is_valid(left) {
                seq![left]
            } else {
                Seq::<IntInterval>::empty()
            };
            let r = if overlap.end != base.end && interval_is_valid(right) {
                seq![right]
            } else {
                Seq::<IntInterval>::empty()
            };
            l + r
        },
    }
}

/// The parts of `base` outside `remove`: at most two intervals.
pub fn subtract_interval(base: &IntInterval, remove: &IntInterval) -> (r: Vec<IntInterval>)
    ensures
        r@ == spec_subtract_interval(*base, *remove),
{
    let overlap = match intersect_interval(base, remove) {
        Some(overlap) => overlap,
        None => {
            return vec![*base];
        },
    };
    let mut result: Vec<IntInterval> = Vec::new();
    if overlap.start != base.start {
        let left_end = match overlap.start {
            Some(start) => start.checked_sub(1),
            None => None,
        };
        let left = IntInterval { start: base.start, end: left_end };
        if interval_valid(&left) {
            result.push(left);
        }
    }
    if overlap.end != base.end {
        let right_start = match overlap.end {
            Some(end) => end.checked_add(1),
            None => None,
        };
        let right = IntInterval { start: right_start, end: base.end };
        if interval_valid(&right) {
            result.push(right);
        }
    }
    proof {
        assert(result@ =~= spec_subtract_interval(*base, *remove));
    }
    result
}

pub open spec fn spec_touch(left: IntInterval, right: IntInterval) -> bool {
    match (left.end, right.start) {
        (Some(e), Some(s)) => e < i64::MAX && e + 1 >= s,
        _ => true,
    }
}

/// Whether `right` overlaps `left` or begins right after it ends.
pub fn intervals_touch_or_overlap(left: &IntInterval, right: &IntInterval) -> (r: bool)
    ensures
        r == spec_touch(*left, *right),
{
    match (left.end, right.start) {
        (Some(left_end), Some(right_start)) => match left_end.checked_add(1) {
            Some(next) => next >= right_start,
            None => false,
        },
        _ => true,
    }
}


// ---------------------------------------------------------------------------
// Normalization: drop invalid intervals, sort by start, merge neighbours
// ---------------------------------------------------------------------------

pub open spec fn valid_pred() -> spec_fn(IntInterval) -> bool {
    |iv: IntInterval| interval_is_valid(iv)
}

/// Position at which a stable insertion sort places `e` into `s`: after
/// every element whose start is not later than that of `e`.
pub open spec fn spec_insert_pos(s: Seq<IntInterval>, e: IntInterval) -> int
    decreases s.len(),
{
    if s.len() == 0 {
        0
    } else if !start_le(s[0].start, e.start) {
        0
    } else {
        1 + spec_insert_pos(s.drop_first(), e)
    }
}

/// Stable sort by start.
pub open spec fn spec_sort(s: Seq<IntInterval>) -> Seq<IntInterval>
    decreases s.len(),
{
    if s.len() == 0 {
        s
    } else {
        let t = spec_sort(s.drop_last());
        t.insert(spec_insert_pos(t, s.last()), s.last())
    }
}

/// Adds `iv` to the merged list: it extends the last interval when the two
/// touch, and is appended otherwise.
pub open spec fn merge_step(m: Seq<IntInterval>, iv: IntInterval) -> Seq<IntInterval> {
    if m.len() > 0 && spec_touch(m.last(), iv) {
        m.update(
            m.len() - 1,
            IntInterval { start: m.last().start, end: spec_max_end(m.last().end, iv.end) },
        )
    } else {
        m.push(iv)
    }
}

pub open spec fn spec_merge(s: Seq<IntInterval>) -> Seq<IntInterval>
    decreases s.len(),
{
    if s.len() == 0 {
        Seq::<IntInterval>::empty()
    } else {
        merge_step(spec_merge(s.drop_last()), s.last())
    }
}

/// The normal form that `normalize_int_ranges` computes.
pub open spec fn spec_normalize(s: Seq<IntInterval>) -> Seq<IntInterval> {
    spec_merge(spec_sort(s.filter(valid_pred())))
}

fn start_le_exec(a: Option<i64>, b: Option<i64>) -> (r: bool)
    ensures
        r == start_le(a, b),
{
    match (a, b) {
        (None, _) => true,
        (Some(_), None) => false,
        (Some(x), Some(y)) => x <= y,
    }
}

proof fn lemma_insert_pos(s: Seq<IntInterval>, e: IntInterval)
    ensures
        0 <= spec_insert_pos(s, e) <= s.len(),
        forall|k: int| 0 <= k < spec_insert_pos(s, e) ==> start_le(#[trigger] s[k].start, e.start),
        spec_insert_pos(s, e) < s.len() ==> !start_le(s[spec_insert_pos(s, e)].start, e.start),
    decreases s.len(),
{
    if s.len() > 0 && start_le(s[0].start, e.start) {
        lemma_insert_pos(s.drop_first(), e);
        assert forall|k: int| 0 <= k < spec_insert_pos(s, e) implies start_le(
            #[trigger] s[k].start,
            e.start,
        ) by {
            if k > 0 {
                assert(s[k] == s.drop_first()[k - 1]);
            }
        }
    }
}

fn retain_valid(v: &Vec<IntInterval>) -> (r: Vec<IntInterval>)
    ensures
        r@ == v@.filter(valid_pred()),
{
    let mut r: Vec<IntInterval> = Vec::new();
    let mut i: usize = 0;
    while i < v.len()
        invariant
            i <= v.len(),
            r@ == v@.take(i as int).filter(valid_pred()),
        decreases v.len() - i,
    {
        proof {
            reveal_with_fuel(Seq::filter, 1);
            assert(v@.take(i + 1).drop_last() =~= v@.take(i as int));
        }
        if interval_valid(&v[i]) {
            r.push(v[i]);
        }
        i += 1;
    }
    proof {
        assert(v@.take(v.len() as int) =~= v@);
    }
    r
}

fn sort_by_start(v: &Vec<IntInterval>) -> (r: Vec<IntInterval>)
    ensures
        r@ == spec_sort(v@),
{
    let mut out: Vec<IntInterval> = Vec::new();
    let mut i: usize = 0;
    while i < v.len()
        invariant
            i <= v.len(),
            out@ == spec_sort(v@.take(i as int)),
        decreases v.len() - i,
    {
        let e = v[i];
        let mut pos: usize = 0;
        while pos < out.len() && start_le_exec(out[pos].start, e.start)
            invariant
                pos <= out.len(),
                forall|k: int| 0 <= k < pos ==> start_le(#[trigger] out@[k].start, e.start),
            decreases out.len() - pos,
        {
            pos += 1;
        }
        proof {
            lemma_insert_pos(out@, e);
            assert(v@.take(i + 1).drop_last() =~= v@.take(i as int));
            assert(v@.take(i + 1).last() == e);
        }
        out.insert(pos, e);
        i += 1;
    }
    proof {
        assert(v@.take(v.len() as int) =~= v@);
    }
    out
}

fn merge_sorted(v: &Vec<IntInterval>) -> (r: Vec<IntInterval>)
    ensures
        r@ == spec_merge(v@),
{
    let mut merged: Vec<IntInterval> = Vec::new();
    let mut i: usize = 0;
    while i < v.len()
        invariant
            i <= v.len(),
            merged@ == spec_merge(v@.take(i as int)),
        decreases v.len() - i,
    {
        let interval = v[i];
        proof {
            assert(v@.take(i + 1).drop_last() =~= v@.take(i as int));
            assert(v@.take(i + 1).last() == interval);
        }
        let n = merged.len();
        if n > 0 && intervals_touch_or_overlap(&merged[n - 1], &interval) {
            let last = merged[n - 1];
            merged.set(n - 1, IntInterval { start: last.start, end: max_end(last.end, interval.end) });
        } else {
            merged.push(interval);
        }
        i += 1;
    }
    proof {
        assert(v@.take(v.len() as int) =~= v@);
    }
    merged
}

/// Drops invalid intervals, sorts the rest by start and merges those that
/// overlap or touch.
pub fn normalize_int_ranges(intervals: Vec<IntInterval>) -> (r: IntRangeSet)
    ensures
        r@ == spec_normalize(intervals@),
{
    let valid = retain_valid(&intervals);
    let sorted = sort_by_start(&valid);
    let merged = merge_sorted(&sorted);
    IntRangeSet { intervals: merged }
}

impl View for IntRangeSet {
    type V = Seq<IntInterval>;

    closed spec fn view(&self) -> Seq<IntInterval> {
        self.intervals@
    }
}


// ---------------------------------------------------------------------------
// Set operations
// ---------------------------------------------------------------------------

/// The pieces of one interval intersected with each interval of `rs`.
pub open spec fn spec_row(l: IntInterval, rs: Seq<IntInterval>) -> Seq<IntInterval>
    decreases rs.len(),
{
    if rs.len() == 0 {
        Seq::<IntInterval>::empty()
    } else {
        let prev = spec_row(l, rs.drop_last());
        match spec_intersect_interval(l, rs.last()) {
            Some(iv) => prev.push(iv),
            None => prev,
        }
    }
}

/// All pairwise intersections, row by row.
pub open spec fn spec_cross(ls: Seq<IntInterval>, rs: Seq<IntInterval>) -> Seq<IntInterval>
    decreases ls.len(),
{
    if ls.len() == 0 {
        Seq::<IntInterval>::empty()
    } else {
        spec_cross(ls.drop_last(), rs) + spec_row(ls.last(), rs)
    }
}

/// Each interval of `s` with `remove` cut out of it.
pub open spec fn spec_subtract_all(s: Seq<IntInterval>, remove: IntInterval) -> Seq<IntInterval>
    decreases s.len(),
{
    if s.len() == 0 {
        Seq::<IntInterval>::empty()
    } else {
        spec_subtract_all(s.drop_last(), remove) + spec_subtract_interval(s.last(), remove)
    }
}

/// `cur` with every interval of `rem` cut out, one after the other.
pub open spec fn spec_difference(cur: Seq<IntInterval>, rem: Seq<IntInterval>) -> Seq<
    IntInterval,
>
    decreases rem.len(),
{
    if rem.len() == 0 {
        cur
    } else {
        spec_normalize(spec_subtract_all(spec_difference(cur, rem.drop_last()), rem.last()))
    }
}

proof fn lemma_normalize_empty()
    ensures
        spec_normalize(Seq::<IntInterval>::empty()) == Seq::<IntInterval>::empty(),
{
    reveal_with_fuel(Seq::filter, 1);
    assert(Seq::<IntInterval>::empty().filter(valid_pred()) =~= Seq::<IntInterval>::empty());
}

proof fn lemma_difference_stays_empty(cur: Seq<IntInterval>, rem: Seq<IntInterval>, k: int)
    requires
        0 <= k <= rem.len(),
        spec_difference(cur, rem.take(k)) == Seq::<IntInterval>::empty(),
    ensures
        spec_difference(cur, rem) == Seq::<IntInterval>::empty(),
    decreases rem.len() - k,
{
    if k < rem.len() {
        assert(rem.take(k + 1).drop_last() =~= rem.take(k));
        assert(spec_subtract_all(Seq::<IntInterval>::empty(), rem[k]) =~= Seq::<
            IntInterval,
        >::empty());
        lemma_normalize_empty();
        lemma_difference_stays_empty(cur, rem, k + 1);
    } else {
        assert(rem.take(k) =~= rem);
    }
}


// ---------------------------------------------------------------------------
// What the operations mean on sets of integers
// ---------------------------------------------------------------------------

/// Sorted by start, stably for equal starts.
pub open spec fn sorted_by_start(s: Seq<IntInterval>) -> bool {
    forall|i: int, j: int| 0 <= i < j < s.len() ==> start_le(#[trigger] s[i].start, #[trigger] s[j].start)
}

proof fn lemma_in_ranges_push(s: Seq<IntInterval>, iv: IntInterval)
    ensures
        forall|x: int| #[trigger] in_ranges(s.push(iv), x) <==> (in_ranges(s, x) || in_interval(iv, x)),
{
    assert forall|x: int| in_ranges(s.push(iv), x) <==> (in_ranges(s, x) || in_interval(iv, x)) by {
        if in_ranges(s, x) {
            let i = choose|i: int| 0 <= i < s.len() && #[trigger] in_interval(s[i], x);
            assert(s.push(iv)[i] == s[i]);
        }
        if in_interval(iv, x) {
            assert(s.push(iv)[s.len() as int] == iv);
        }
        if in_ranges(s.push(iv), x) {
            let i = choose|i: int| 0 <= i < s.push(iv).len() && #[trigger] in_interval(s.push(iv)[i], x);
            if i < s.len() {
                assert(s.push(iv)[i] == s[i]);
            }
        }
    }
}

pub proof fn lemma_in_ranges_concat(a: Seq<IntInterval>, b: Seq<IntInterval>)
    ensures
        forall|x: int| #[trigger] in_ranges(a + b, x) <==> (in_ranges(a, x) || in_ranges(b, x)),
{
    assert forall|x: int| in_ranges(a + b, x) <==> (in_ranges(a, x) || in_ranges(b, x)) by {
        if in_ranges(a, x) {
            let i = choose|i: int| 0 <= i < a.len() && #[trigger] in_interval(a[i], x);
            assert((a + b)[i] == a[i]);
        }
        if in_ranges(b, x) {
            let i = choose|i: int| 0 <= i < b.len() && #[trigger] in_interval(b[i], x);
            assert((a + b)[a.len() + i] == b[i]);
        }
        if in_ranges(a + b, x) {
            let i = choose|i: int| 0 <= i < (a + b).len() && #[trigger] in_interval((a + b)[i], x);
            if i < a.len() {
                assert((a + b)[i] == a[i]);
            } else {
                assert((a + b)[i] == b[i - a.len()]);
            }
        }
    }
}

proof fn lemma_filter_valid(s: Seq<IntInterval>)
    ensures
        all_valid(s.filter(valid_pred())),
        forall|x: int| #[trigger] in_ranges(s.filter(valid_pred()), x) <==> in_ranges(s, x),
    decreases s.len(),
{
    reveal_with_fuel(Seq::filter, 1);
    if s.len() == 0 {
        assert(s.filter(valid_pred()) =~= s);
    } else {
        let t = s.drop_last();
        lemma_filter_valid(t);
        lemma_in_ranges_push(t, s.last());
        lemma_in_ranges_push(t.filter(valid_pred()), s.last());
        assert(s =~= t.push(s.last()));
    }
}

proof fn lemma_insert_meaning(t: Seq<IntInterval>, p: int, e: IntInterval)
    requires
        0 <= p <= t.len(),
    ensures
        forall|x: int| #[trigger] in_ranges(t.insert(p, e), x) <==> (in_ranges(t, x) || in_interval(e, x)),
        all_valid(t) && interval_is_valid(e) ==> all_valid(t.insert(p, e)),
{
    let a = t.subrange(0, p);
    let b = t.subrange(p, t.len() as int);
    assert(t =~= a + b);
    assert(t.insert(p, e) == a.push(e) + b);
    lemma_in_ranges_concat(a, b);
    lemma_in_ranges_concat(a.push(e), b);
    lemma_in_ranges_push(a, e);
    assert forall|x: int| #[trigger] in_ranges(t.insert(p, e), x) <==> (in_ranges(t, x) || in_interval(e, x)) by {
        assert(in_ranges(a.push(e) + b, x) <==> (in_ranges(a.push(e), x) || in_ranges(b, x)));
        assert(in_ranges(a + b, x) <==> (in_ranges(a, x) || in_ranges(b, x)));
        assert(in_ranges(a.push(e), x) <==> (in_ranges(a, x) || in_interval(e, x)));
    }
    if all_valid(t) && interval_is_valid(e) {
        t.insert_ensures(p, e);
        assert forall|i: int| 0 <= i < t.insert(p, e).len() implies #[trigger] interval_is_valid(t.insert(p, e)[i]) by {
            if i < p {
                assert(t.insert(p, e)[i] == t[i]);
            } else if i > p {
                assert(t.insert(p, e)[i] == t[i - 1]);
            }
        }
    }
}

proof fn lemma_sort_sorted(s: Seq<IntInterval>)
    ensures
        spec_sort(s).len() == s.len(),
        sorted_by_start(spec_sort(s)),
    decreases s.len(),
{
    if s.len() > 0 {
        let t0 = s.drop_last();
        let e = s.last();
        lemma_sort_sorted(t0);
        let t = spec_sort(t0);
        let p = spec_insert_pos(t, e);
        lemma_insert_pos(t, e);
        t.insert_ensures(p, e);
        let r = t.insert(p, e);
        assert(r == spec_sort(s));
        assert forall|i: int, j: int| 0 <= i < j < r.len() implies start_le(#[trigger] r[i].start, #[trigger] r[j].start) by {
            if j < p {
                assert(r[i] == t[i] && r[j] == t[j]);
            } else if j == p {
                assert(r[i] == t[i]);
            } else if i < p {
                assert(r[i] == t[i] && r[j] == t[j - 1]);
                assert(start_le(t[i].start, t[j - 1].start));
            } else if i == p {
                assert(r[j] == t[j - 1]);
                if p < j - 1 {
                    assert(start_le(t[p].start, t[j - 1].start));
                }
            } else {
                assert(r[i] == t[i - 1] && r[j] == t[j - 1]);
                assert(start_le(t[i - 1].start, t[j - 1].start));
            }
        }
    }
}

proof fn lemma_sort_meaning(s: Seq<IntInterval>)
    ensures
        all_valid(s) ==> all_valid(spec_sort(s)),
        sorted_by_start(spec_sort(s)),
        forall|x: int| #[trigger] in_ranges(spec_sort(s), x) <==> in_ranges(s, x),
    decreases s.len(),
{
    lemma_sort_sorted(s);
    if s.len() > 0 {
        let t0 = s.drop_last();
        let e = s.last();
        lemma_sort_meaning(t0);
        let t = spec_sort(t0);
        let p = spec_insert_pos(t, e);
        lemma_insert_pos(t, e);
        lemma_insert_meaning(t, p, e);
        lemma_in_ranges_push(t0, e);
        assert(s =~= t0.push(e));
        assert forall|x: int| #[trigger] in_ranges(spec_sort(s), x) <==> in_ranges(s, x) by {
            assert(in_ranges(t.insert(p, e), x) <==> (in_ranges(t, x) || in_interval(e, x)));
            assert(in_ranges(t, x) <==> in_ranges(t0, x));
            assert(in_ranges(t0.push(e), x) <==> (in_ranges(t0, x) || in_interval(e, x)));
        }
        if all_valid(s) {
            assert(all_valid(t0)) by {
                assert forall|i: int| 0 <= i < t0.len() implies #[trigger] interval_is_valid(t0[i]) by {
                    assert(t0[i] == s[i]);
                }
            }
            assert(interval_is_valid(s[s.len() - 1]));
        }
    } else {
        assert forall|x: int| #[trigger] in_ranges(spec_sort(s), x) <==> in_ranges(s, x) by {}
    }
}

proof fn lemma_merge(s: Seq<IntInterval>)
    requires
        sorted_by_start(s),
        all_valid(s),
    ensures
        normalized(spec_merge(s)),
        forall|x: int| #[trigger] in_ranges(spec_merge(s), x) <==> in_ranges(s, x),
        (spec_merge(s).len() == 0) == (s.len() == 0),
        spec_merge(s).len() > 0 ==> exists|i: int| 0 <= i < s.len() && spec_merge(s).last().start == #[trigger] s[i].start,
    decreases s.len(),
{
    if s.len() > 0 {
        let t = s.drop_last();
        let iv = s.last();
        assert(sorted_by_start(t)) by {
            assert forall|i: int, j: int| 0 <= i < j < t.len() implies start_le(#[trigger] t[i].start, #[trigger] t[j].start) by {
                assert(t[i] == s[i] && t[j] == s[j]);
            }
        }
        assert(all_valid(t)) by {
            assert forall|i: int| 0 <= i < t.len() implies #[trigger] interval_is_valid(t[i]) by {
                assert(t[i] == s[i]);
            }
        }
        assert(interval_is_valid(iv));
        lemma_merge(t);
        let m = spec_merge(t);
        lemma_in_ranges_push(t, iv);
        assert(s =~= t.push(iv));
        if m.len() > 0 && spec_touch(m.last(), iv) {
            let i0 = choose|i: int| 0 <= i < t.len() && m.last().start == #[trigger] t[i].start;
            assert(t[i0] == s[i0]);
            assert(start_le(s[i0].start, s[s.len() - 1].start));
            let last = m.last();
            let nl = IntInterval { start: last.start, end: spec_max_end(last.end, iv.end) };
            let r = m.update(m.len() - 1, nl);
            assert(r == spec_merge(s));
            assert(interval_is_valid(last));
            assert forall|x: int| in_interval(nl, x) <==> (in_interval(last, x) || in_interval(iv, x)) by {}
            assert(m =~= m.drop_last().push(last));
            assert(r =~= m.drop_last().push(nl));
            lemma_in_ranges_push(m.drop_last(), last);
            lemma_in_ranges_push(m.drop_last(), nl);
            assert forall|k: int| 0 <= k < r.len() - 1 implies #[trigger] separated(r[k], r[k + 1]) by {
                assert(separated(m[k], m[k + 1]));
                if k + 1 < r.len() - 1 {
                    assert(r[k + 1] == m[k + 1]);
                }
            }
            assert(all_valid(r)) by {
                assert forall|k: int| 0 <= k < r.len() implies #[trigger] interval_is_valid(r[k]) by {
                    if k < r.len() - 1 {
                        assert(r[k] == m[k]);
                    }
                }
            }
            assert(r.last().start == s[i0].start);
            assert forall|x: int| #[trigger] in_ranges(spec_merge(s), x) <==> in_ranges(s, x) by {
                assert(in_ranges(m.drop_last().push(nl), x) <==> (in_ranges(m.drop_last(), x) || in_interval(nl, x)));
                assert(in_ranges(m.drop_last().push(last), x) <==> (in_ranges(m.drop_last(), x) || in_interval(last, x)));
                assert(in_ranges(m, x) <==> in_ranges(t, x));
                assert(in_ranges(t.push(iv), x) <==> (in_ranges(t, x) || in_interval(iv, x)));
            }
        } else {
            let r = m.push(iv);
            assert(r == spec_merge(s));
            lemma_in_ranges_push(m, iv);
            assert forall|k: int| 0 <= k < r.len() - 1 implies #[trigger] separated(r[k], r[k + 1]) by {
                if k < m.len() - 1 {
                    assert(separated(m[k], m[k + 1]));
                    assert(r[k] == m[k] && r[k + 1] == m[k + 1]);
                } else {
                    assert(r[k] == m.last() && r[k + 1] == iv);
                }
            }
            assert(all_valid(r)) by {
                assert forall|k: int| 0 <= k < r.len() implies #[trigger] interval_is_valid(r[k]) by {
                    if k < m.len() {
                        assert(r[k] == m[k]);
                    }
                }
            }
            assert(r.last().start == s[s.len() - 1].start);
            assert forall|x: int| #[trigger] in_ranges(spec_merge(s), x) <==> in_ranges(s, x) by {
                assert(in_ranges(m.push(iv), x) <==> (in_ranges(m, x) || in_interval(iv, x)));
                assert(in_ranges(m, x) <==> in_ranges(t, x));
                assert(in_ranges(t.push(iv), x) <==> (in_ranges(t, x) || in_interval(iv, x)));
            }
        }
    } else {
        assert forall|x: int| #[trigger] in_ranges(spec_merge(s), x) <==> in_ranges(s, x) by {}
    }
}

/// The normal form denotes the same integers as the intervals it was made
/// from, and it is normalized.
pub proof fn lemma_normalize(s: Seq<IntInterval>)
    ensures
        normalized(spec_normalize(s)),
        ranges_set(spec_normalize(s)) == ranges_set(s),
{
    let f = s.filter(valid_pred());
    lemma_filter_valid(s);
    lemma_sort_meaning(f);
    lemma_merge(spec_sort(f));
    assert(ranges_set(spec_normalize(s)) =~= ranges_set(s));
}

proof fn lemma_row(l: IntInterval, rs: Seq<IntInterval>)
    ensures
        forall|x: int| #[trigger] in_ranges(spec_row(l, rs), x) <==> (in_interval(l, x) && in_ranges(rs, x)),
    decreases rs.len(),
{
    if rs.len() > 0 {
        let t = rs.drop_last();
        lemma_row(l, t);
        lemma_in_ranges_push(t, rs.last());
        assert(rs =~= t.push(rs.last()));
        let r = rs.last();
        let iv = IntInterval { start: spec_max_start(l.start, r.start), end: spec_min_end(l.end, r.end) };
        assert forall|x: int| in_interval(iv, x) <==> (in_interval(l, x) && in_interval(r, x)) by {}
        match spec_intersect_interval(l, r) {
            Some(v) => {
                lemma_in_ranges_push(spec_row(l, t), v);
                assert forall|x: int| #[trigger] in_ranges(spec_row(l, rs), x) <==> (in_interval(l, x) && in_ranges(rs, x)) by {
                    assert(in_ranges(spec_row(l, t).push(v), x) <==> (in_ranges(spec_row(l, t), x) || in_interval(v, x)));
                    assert(in_ranges(spec_row(l, t), x) <==> (in_interval(l, x) && in_ranges(t, x)));
                    assert(in_ranges(t.push(r), x) <==> (in_ranges(t, x) || in_interval(r, x)));
                    assert(in_interval(iv, x) <==> (in_interval(l, x) && in_interval(r, x)));
                }
            },
            None => {
                assert forall|x: int| #[trigger] in_ranges(spec_row(l, rs), x) <==> (in_interval(l, x) && in_ranges(rs, x)) by {
                    assert(in_ranges(spec_row(l, t), x) <==> (in_interval(l, x) && in_ranges(t, x)));
                    assert(in_ranges(t.push(r), x) <==> (in_ranges(t, x) || in_interval(r, x)));
                    assert(in_interval(iv, x) <==> (in_interval(l, x) && in_interval(r, x)));
                }
            },
        }
    } else {
        assert forall|x: int| #[trigger] in_ranges(spec_row(l, rs), x) <==> (in_interval(l, x) && in_ranges(rs, x)) by {}
    }
}

pub proof fn lemma_cross(ls: Seq<IntInterval>, rs: Seq<IntInterval>)
    ensures
        forall|x: int| #[trigger] in_ranges(spec_cross(ls, rs), x) <==> (in_ranges(ls, x) && in_ranges(rs, x)),
    decreases ls.len(),
{
    if ls.len() > 0 {
        let t = ls.drop_last();
        lemma_cross(t, rs);
        lemma_row(ls.last(), rs);
        lemma_in_ranges_concat(spec_cross(t, rs), spec_row(ls.last(), rs));
        lemma_in_ranges_push(t, ls.last());
        assert(ls =~= t.push(ls.last()));
    }
}

proof fn lemma_subtract_interval(base: IntInterval, remove: IntInterval)
    ensures
        forall|x: int| in_interval(base, x) && !in_interval(remove, x) ==> #[trigger] in_ranges(spec_subtract_interval(base, remove), x),
        remove.start != Some(i64::MIN) && remove.end != Some(i64::MAX) ==> forall|x: int|
            #[trigger] in_ranges(spec_subtract_interval(base, remove), x) ==> in_interval(base, x) && !in_interval(remove, x),
{
    let r = spec_subtract_interval(base, remove);
    match spec_intersect_interval(base, remove) {
        None => {
            assert forall|x: int| in_interval(base, x) && !in_interval(remove, x) implies in_ranges(r, x) by {
                assert(r[0] == base);
            }
            assert forall|x: int| in_ranges(r, x) && remove.start != Some(i64::MIN) && remove.end != Some(i64::MAX) implies in_interval(base, x) && !in_interval(remove, x) by {
                let i = choose|i: int| 0 <= i < r.len() && #[trigger] in_interval(r[i], x);
                assert(r[i] == base);
            }
        },
        Some(overlap) => {
            let left = IntInterval { start: base.start, end: bound_below(overlap.start) };
            let right = IntInterval { start: bound_above(overlap.end), end: base.end };
            let l = if overlap.start != base.start && interval_is_valid(left) {
                seq![left]
            } else {
                Seq::<IntInterval>::empty()
            };
            let rr = if overlap.end != base.end && interval_is_valid(right) {
                seq![right]
            } else {
                Seq::<IntInterval>::empty()
            };
            lemma_in_ranges_concat(l, rr);
            assert(r == l + rr);
            assert forall|x: int| in_interval(base, x) && !in_interval(remove, x) implies in_ranges(r, x) by {
                if in_interval(left, x) && overlap.start != base.start {
                    assert(l[0] == left);
                } else if in_interval(right, x) && overlap.end != base.end {
                    assert(rr[0] == right);
                } else {
                    assert(false);
                }
            }
            assert forall|x: int| in_ranges(r, x) && remove.start != Some(i64::MIN) && remove.end != Some(i64::MAX) implies in_interval(base, x) && !in_interval(remove, x) by {
                if in_ranges(l, x) {
                    let i = choose|i: int| 0 <= i < l.len() && #[trigger] in_interval(l[i], x);
                    assert(l[i] == left);
                } else {
                    let i = choose|i: int| 0 <= i < rr.len() && #[trigger] in_interval(rr[i], x);
                    assert(rr[i] == right);
                }
            }
        },
    }
}

proof fn lemma_subtract_all(s: Seq<IntInterval>, remove: IntInterval)
    ensures
        forall|x: int| in_ranges(s, x) && !in_interval(remove, x) ==> #[trigger] in_ranges(spec_subtract_all(s, remove), x),
        remove.start != Some(i64::MIN) && remove.end != Some(i64::MAX) ==> forall|x: int|
            #[trigger] in_ranges(spec_subtract_all(s, remove), x) ==> in_ranges(s, x) && !in_interval(remove, x),
    decreases s.len(),
{
    if s.len() > 0 {
        let t = s.drop_last();
        lemma_subtract_all(t, remove);
        lemma_subtract_interval(s.last(), remove);
        lemma_in_ranges_concat(spec_subtract_all(t, remove), spec_subtract_interval(s.last(), remove));
        lemma_in_ranges_push(t, s.last());
        assert(s =~= t.push(s.last()));
    }
}

pub proof fn lemma_difference(cur: Seq<IntInterval>, rem: Seq<IntInterval>)
    ensures
        ranges_set(cur).difference(ranges_set(rem)).subset_of(ranges_set(spec_difference(cur, rem))),
        bounds_inside(rem) ==> ranges_set(spec_difference(cur, rem)) == ranges_set(cur).difference(ranges_set(rem)),
    decreases rem.len(),
{
    if rem.len() > 0 {
        let t = rem.drop_last();
        let last = rem.last();
        lemma_difference(cur, t);
        let d = spec_difference(cur, t);
        lemma_subtract_all(d, last);
        lemma_normalize(spec_subtract_all(d, last));
        lemma_in_ranges_push(t, last);
        assert(rem =~= t.push(last));
        assert forall|x: int| ranges_set(cur).difference(ranges_set(rem)).contains(x) implies ranges_set(spec_difference(cur, rem)).contains(x) by {
            assert(in_ranges(t.push(last), x) <==> (in_ranges(t, x) || in_interval(last, x)));
            assert(ranges_set(cur).difference(ranges_set(t)).contains(x));
            assert(in_ranges(d, x));
            assert(in_ranges(spec_subtract_all(d, last), x));
            assert(ranges_set(spec_subtract_all(d, last)).contains(x));
        }
        if bounds_inside(rem) {
            assert(bounds_inside(t)) by {
                assert forall|i: int| 0 <= i < t.len() implies (#[trigger] t[i]).start != Some(i64::MIN) && t[i].end != Some(i64::MAX) by {
                    assert(t[i] == rem[i]);
                }
            }
            assert(last == rem[rem.len() - 1]);
            assert forall|x: int| ranges_set(spec_difference(cur, rem)).contains(x) implies ranges_set(cur).difference(ranges_set(rem)).contains(x) by {
                assert(in_ranges(t.push(last), x) <==> (in_ranges(t, x) || in_interval(last, x)));
                assert(ranges_set(spec_subtract_all(d, last)).contains(x));
                assert(in_ranges(spec_subtract_all(d, last), x));
                assert(in_ranges(d, x));
                assert(ranges_set(d).contains(x));
            }
            assert(ranges_set(spec_difference(cur, rem)) =~= ranges_set(cur).difference(ranges_set(rem)));
        }
    } else {
        assert(ranges_set(rem) =~= Set::<int>::empty());
        assert(ranges_set(cur).difference(ranges_set(rem)) =~= ranges_set(cur));
    }
}

proof fn lemma_difference_normalized(cur: Seq<IntInterval>, rem: Seq<IntInterval>)
    requires
        rem.len() > 0 || normalized(cur),
    ensures
        normalized(spec_difference(cur, rem)),
{
    if rem.len() > 0 {
        lemma_normalize(spec_subtract_all(spec_difference(cur, rem.drop_last()), rem.last()));
    }
}

proof fn lemma_single(iv: IntInterval)
    ensures
        forall|x: int| #[trigger] in_ranges(seq![iv], x) <==> in_interval(iv, x),
        interval_is_valid(iv) ==> normalized(seq![iv]),
{
    assert forall|x: int| #[trigger] in_ranges(seq![iv], x) <==> in_interval(iv, x) by {
        if in_interval(iv, x) {
            assert(seq![iv][0] == iv);
        }
    }
}

/// Valid intervals denote no integer exactly when there are none.
pub proof fn lemma_nonempty_valid(s: Seq<IntInterval>)
    requires
        all_valid(s),
    ensures
        (s.len() == 0) == (ranges_set(s) == Set::<int>::empty()),
{
    if s.len() > 0 {
        let iv = s[0];
        assert(interval_is_valid(iv));
        let x: int = match iv.start {
            Some(st) => st as int,
            None => match iv.end {
                Some(e) => e as int,
                None => 0,
            },
        };
        assert(in_interval(s[0], x));
        assert(ranges_set(s).contains(x));
    } else {
        assert(ranges_set(s) =~= Set::<int>::empty());
    }
}

impl IntRangeSet {
    /// Every integer.
    pub fn all() -> (r: Self)
        ensures
            r@ == seq![IntInterval { start: None, end: None }],
            normalized(r@),
            ranges_set(r@) == Set::<int>::full(),
    {
        proof {
            lemma_single(IntInterval { start: None, end: None });
            assert(ranges_set(seq![IntInterval { start: None, end: None }]) =~= Set::<int>::full());
        }
        Self { intervals: vec![IntInterval { start: None, end: None }] }
    }

    /// Exactly `value`.
    pub fn singleton(value: i64) -> (r: Self)
        ensures
            r@ == seq![IntInterval { start: Some(value), end: Some(value) }],
            normalized(r@),
            ranges_set(r@) == Set::<int>::empty().insert(value as int),
    {
        proof {
            lemma_single(IntInterval { start: Some(value), end: Some(value) });
            assert(ranges_set(seq![IntInterval { start: Some(value), end: Some(value) }]) =~= Set::<int>::empty().insert(value as int));
        }
        Self { intervals: vec![IntInterval { start: Some(value), end: Some(value) }] }
    }

    /// No integer.
    pub fn empty() -> (r: Self)
        ensures
            r@ == Seq::<IntInterval>::empty(),
            normalized(r@),
            ranges_set(r@) == Set::<int>::empty(),
    {
        proof {
            assert(ranges_set(Seq::<IntInterval>::empty()) =~= Set::<int>::empty());
        }
        Self { intervals: Vec::new() }
    }

    /// Every integer at least `value`.
    pub fn greater_eq(value: i64) -> (r: Self)
        ensures
            r@ == seq![IntInterval { start: Some(value), end: None }],
            normalized(r@),
            ranges_set(r@) == Set::new(|x: int| x >= value),
    {
        proof {
            lemma_single(IntInterval { start: Some(value), end: None });
            assert(ranges_set(seq![IntInterval { start: Some(value), end: None }]) =~= Set::new(|x: int| x >= value));
        }
        Self { intervals: vec![IntInterval { start: Some(value), end: None }] }
    }

    /// Every integer at most `value`.
    pub fn less_eq(value: i64) -> (r: Self)
        ensures
            r@ == seq![IntInterval { start: None, end: Some(value) }],
            normalized(r@),
            ranges_set(r@) == Set::new(|x: int| x <= value),
    {
        proof {
            lemma_single(IntInterval { start: None, end: Some(value) });
            assert(ranges_set(seq![IntInterval { start: None, end: Some(value) }]) =~= Set::new(|x: int| x <= value));
        }
        Self { intervals: vec![IntInterval { start: None, end: Some(value) }] }
    }

    /// The set made of exactly the given interval; no normalization.
    pub fn from_interval(interval: IntInterval) -> (r: Self)
        ensures
            r@ == seq![interval],
    {
        Self { intervals: vec![interval] }
    }

    /// The intervals, in order.
    pub fn intervals(&self) -> (r: &Vec<IntInterval>)
        ensures
            r@ == self@,
    {
        &self.intervals
    }

    /// A copy of the set.
    pub fn duplicate(&self) -> (r: Self)
        ensures
            r@ == self@,
    {
        let mut intervals: Vec<IntInterval> = Vec::new();
        let mut i: usize = 0;
        while i < self.intervals.len()
            invariant
                i <= self.intervals.len(),
                intervals@ == self.intervals@.take(i as int),
            decreases self.intervals.len() - i,
        {
            intervals.push(self.intervals[i]);
            i += 1;
            proof {
                assert(intervals@ =~= self.intervals@.take(i as int));
            }
        }
        proof {
            assert(self.intervals@.take(self.intervals.len() as int) =~= self.intervals@);
        }
        Self { intervals }
    }

    /// Both sets together.
    pub fn union(&self, other: &Self) -> (r: Self)
        ensures
            r@ == spec_normalize(self@ + other@),
            normalized(r@),
            ranges_set(r@) == ranges_set(self@).union(ranges_set(other@)),
    {
        proof {
            lemma_normalize(self@ + other@);
            lemma_in_ranges_concat(self@, other@);
            assert(ranges_set(self@ + other@) =~= ranges_set(self@).union(ranges_set(other@)));
        }
        let mut intervals = self.duplicate().intervals;
        let mut extra = other.duplicate().intervals;
        intervals.append(&mut extra);
        normalize_int_ranges(intervals)
    }

    /// The integers in both sets.
    pub fn intersect(&self, other: &Self) -> (r: Self)
        ensures
            r@ == spec_normalize(spec_cross(self@, other@)),
            normalized(r@),
            ranges_set(r@) == ranges_set(self@).intersect(ranges_set(other@)),
    {
        proof {
            lemma_normalize(spec_cross(self@, other@));
            lemma_cross(self@, other@);
            assert(ranges_set(spec_cross(self@, other@)) =~= ranges_set(self@).intersect(ranges_set(other@)));
        }
        let mut result: Vec<IntInterval> = Vec::new();
        let mut i: usize = 0;
        while i < self.intervals.len()
            invariant
                i <= self.intervals.len(),
                result@ == spec_cross(self.intervals@.take(i as int), other.intervals@),
            decreases self.intervals.len() - i,
        {
            let left = self.intervals[i];
            let mut j: usize = 0;
            while j < other.intervals.len()
                invariant
                    i < self.intervals.len(),
                    left == self.intervals@[i as int],
                    j <= other.intervals.len(),
                    result@ == spec_cross(self.intervals@.take(i as int), other.intervals@)
                        + spec_row(left, other.intervals@.take(j as int)),
                decreases other.intervals.len() - j,
            {
                let right = other.intervals[j];
                proof {
                    assert(other.intervals@.take(j + 1).drop_last() =~= other.intervals@.take(
                        j as int,
                    ));
                    assert(other.intervals@.take(j + 1).last() == right);
                }
                if let Some(interval) = intersect_interval(&left, &right) {
                    result.push(interval);
                }
                j += 1;
            }
            proof {
                assert(other.intervals@.take(other.intervals.len() as int) =~= other.intervals@);
                assert(self.intervals@.take(i + 1).drop_last() =~= self.intervals@.take(i as int));
                assert(self.intervals@.take(i + 1).last() == left);
            }
            i += 1;
        }
        proof {
            assert(self.intervals@.take(self.intervals.len() as int) =~= self.intervals@);
        }
        normalize_int_ranges(result)
    }

    /// The integers of `self` that are not in `other`.
    pub fn difference(&self, other: &Self) -> (r: Self)
        ensures
            r@ == spec_difference(self@, other@),
            other@.len() > 0 || normalized(self@) ==> normalized(r@),
            ranges_set(self@).difference(ranges_set(other@)).subset_of(ranges_set(r@)),
            bounds_inside(other@) ==> ranges_set(r@) == ranges_set(self@).difference(ranges_set(other@)),
    {
        proof {
            lemma_difference(self@, other@);
            if other@.len() > 0 || normalized(self@) {
                lemma_difference_normalized(self@, other@);
            }
        }
        let mut current = self.duplicate();
        let mut i: usize = 0;
        while i < other.intervals.len()
            invariant
                i <= other.intervals.len(),
                current@ == spec_difference(self@, other@.take(i as int)),
            decreases other.intervals.len() - i,
        {
            let interval = other.intervals[i];
            proof {
                assert(other@.take(i + 1).drop_last() =~= other@.take(i as int));
                assert(other@.take(i + 1).last() == interval);
            }
            current = current.subtract_interval(&interval);
            i += 1;
            if current.is_empty() {
                proof {
                    lemma_difference_stays_empty(self@, other@, i as int);
                    lemma_difference(self@, other@);
                    lemma_difference_normalized(self@, other@);
                }
                return current;
            }
        }
        proof {
            assert(other@.take(other.intervals.len() as int) =~= other@);
        }
        current
    }

    /// Every interval of the set with `remove` cut out.
    pub fn subtract_interval(&self, remove: &IntInterval) -> (r: Self)
        ensures
            r@ == spec_normalize(spec_subtract_all(self@, *remove)),
            normalized(r@),
            forall|x: int| in_ranges(self@, x) && !in_interval(*remove, x) ==> #[trigger] ranges_set(r@).contains(x),
            remove.start != Some(i64::MIN) && remove.end != Some(i64::MAX) ==> ranges_set(r@) == ranges_set(self@).difference(Set::new(|x: int| in_interval(*remove, x))),
    {
        proof {
            lemma_normalize(spec_subtract_all(self@, *remove));
            lemma_subtract_all(self@, *remove);
            if remove.start != Some(i64::MIN) && remove.end != Some(i64::MAX) {
                assert(ranges_set(spec_subtract_all(self@, *remove)) =~= ranges_set(self@).difference(Set::new(|x: int| in_interval(*remove, x))));
            }
        }
        let mut result: Vec<IntInterval> = Vec::new();
        let mut i: usize = 0;
        while i < self.intervals.len()
            invariant
                i <= self.intervals.len(),
                result@ == spec_subtract_all(self.intervals@.take(i as int), *remove),
            decreases self.intervals.len() - i,
        {
            let mut pieces = subtract_interval(&self.intervals[i], remove);
            proof {
                assert(self.intervals@.take(i + 1).drop_last() =~= self.intervals@.take(i as int));
                assert(self.intervals@.take(i + 1).last() == self.intervals@[i as int]);
            }
            result.append(&mut pieces);
            i += 1;
        }
        proof {
            assert(self.intervals@.take(self.intervals.len() as int) =~= self.intervals@);
        }
        normalize_int_ranges(result)
    }

    /// Whether the set holds no interval.
    pub fn is_empty(&self) -> (r: bool)
        ensures
            r == (self@.len() == 0),
            all_valid(self@) ==> (r == (ranges_set(self@) == Set::<int>::empty())),
    {
        proof {
            if all_valid(self@) {
                lemma_nonempty_valid(self@);
            }
        }
        self.intervals.len() == 0
    }
}

} // verus!

verus! {

/// Joining two range sets gives the same integers in either order.
pub proof fn law_union_commutes(a: Seq<IntInterval>, b: Seq<IntInterval>)
    ensures
        ranges_set(spec_normalize(a + b)) == ranges_set(spec_normalize(b + a)),
{
    lemma_normalize(a + b);
    lemma_normalize(b + a);
    lemma_in_ranges_concat(a, b);
    lemma_in_ranges_concat(b, a);
    assert(ranges_set(a + b) =~= ranges_set(b + a));
}

/// Intersecting two range sets gives the same integers in either order.
pub proof fn law_intersect_commutes(a: Seq<IntInterval>, b: Seq<IntInterval>)
    ensures
        ranges_set(spec_normalize(spec_cross(a, b))) == ranges_set(spec_normalize(spec_cross(b, a))),
{
    lemma_normalize(spec_cross(a, b));
    lemma_normalize(spec_cross(b, a));
    lemma_cross(a, b);
    lemma_cross(b, a);
    assert(ranges_set(spec_cross(a, b)) =~= ranges_set(spec_cross(b, a)));
}

/// What is left of `a` once `b` is removed, and what `a` shares with `b`,
/// are disjoint and together make up `a`, when no bound of `b` sits at an
/// end of the `i64` range.
pub proof fn law_difference_and_intersection_partition(a: Seq<IntInterval>, b: Seq<IntInterval>)
    requires
        bounds_inside(b),
    ensures
        ranges_set(spec_difference(a, b)).union(ranges_set(spec_normalize(spec_cross(a, b))))
            == ranges_set(a),
        ranges_set(spec_difference(a, b)).disjoint(ranges_set(spec_normalize(spec_cross(a, b)))),
{
    lemma_difference(a, b);
    lemma_normalize(spec_cross(a, b));
    lemma_cross(a, b);
    assert(ranges_set(spec_cross(a, b)) =~= ranges_set(a).intersect(ranges_set(b)));
    assert(ranges_set(spec_difference(a, b)).union(ranges_set(spec_normalize(spec_cross(a, b))))
        =~= ranges_set(a));
}

/// Removing a range set from itself leaves no integer, when no bound sits
/// at an end of the `i64` range.
pub proof fn law_difference_with_itself_is_empty(a: Seq<IntInterval>)
    requires
        bounds_inside(a),
    ensures
        ranges_set(spec_difference(a, a)) == Set::<int>::empty(),
{
    lemma_difference(a, a);
    assert(ranges_set(a).difference(ranges_set(a)) =~= Set::<int>::empty());
}

/// Removing `b` from the union of `a` and `b` leaves what removing `b`
/// from `a` leaves, when no bound of `b` sits at an end of the `i64` range.
pub proof fn law_union_then_difference(a: Seq<IntInterval>, b: Seq<IntInterval>)
    requires
        bounds_inside(b),
    ensures
        ranges_set(spec_difference(spec_normalize(a + b), b)) == ranges_set(spec_difference(a, b)),
{
    lemma_normalize(a + b);
    lemma_in_ranges_concat(a, b);
    assert(ranges_set(a + b) =~= ranges_set(a).union(ranges_set(b)));
    lemma_difference(spec_normalize(a + b), b);
    lemma_difference(a, b);
    assert(ranges_set(spec_normalize(a + b)).difference(ranges_set(b)) =~= ranges_set(a).difference(
        ranges_set(b),
    ));
}

/// No interval ends at the largest integer.
pub open spec fn no_end_at_max(s: Seq<IntInterval>) -> bool {
    forall|i: int| 0 <= i < s.len() ==> (#[trigger] s[i]).end != Some(i64::MAX)
}

proof fn lemma_filter_no_end_at_max(s: Seq<IntInterval>)
    requires
        no_end_at_max(s),
    ensures
        no_end_at_max(s.filter(valid_pred())),
    decreases s.len(),
{
    reveal_with_fuel(Seq::filter, 1);
    if s.len() > 0 {
        let t = s.drop_last();
        assert forall|i: int| 0 <= i < t.len() implies (#[trigger] t[i]).end != Some(i64::MAX) by {
            assert(t[i] == s[i]);
        }
        lemma_filter_no_end_at_max(t);
        let ft = t.filter(valid_pred());
        if valid_pred()(s.last()) {
            let r = ft.push(s.last());
            assert(s.filter(valid_pred()) == r);
            assert forall|i: int| 0 <= i < r.len() implies (#[trigger] r[i]).end != Some(i64::MAX) by {
                if i < ft.len() {
                    assert(r[i] == ft[i]);
                }
            }
        } else {
            assert(s.filter(valid_pred()) == ft);
        }
    }
}

proof fn lemma_sort_no_end_at_max(s: Seq<IntInterval>)
    requires
        no_end_at_max(s),
    ensures
        no_end_at_max(spec_sort(s)),
    decreases s.len(),
{
    if s.len() > 0 {
        let t0 = s.drop_last();
        assert forall|i: int| 0 <= i < t0.len() implies (#[trigger] t0[i]).end != Some(i64::MAX) by {
            assert(t0[i] == s[i]);
        }
        lemma_sort_no_end_at_max(t0);
        let t = spec_sort(t0);
        let p = spec_insert_pos(t, s.last());
        lemma_insert_pos_bounds(t, s.last());
        let r = t.insert(p, s.last());
        assert forall|i: int| 0 <= i < r.len() implies (#[trigger] r[i]).end != Some(i64::MAX) by {
            if i < p {
                assert(r[i] == t[i]);
            } else if i > p {
                assert(r[i] == t[i - 1]);
            }
        }
    }
}

proof fn lemma_insert_pos_bounds(s: Seq<IntInterval>, e: IntInterval)
    ensures
        0 <= spec_insert_pos(s, e) <= s.len(),
    decreases s.len(),
{
    if s.len() > 0 {
        lemma_insert_pos_bounds(s.drop_first(), e);
    }
}

proof fn lemma_merge_no_end_at_max(s: Seq<IntInterval>)
    requires
        no_end_at_max(s),
    ensures
        no_end_at_max(spec_merge(s)),
    decreases s.len(),
{
    if s.len() > 0 {
        let t = s.drop_last();
        assert forall|i: int| 0 <= i < t.len() implies (#[trigger] t[i]).end != Some(i64::MAX) by {
            assert(t[i] == s[i]);
        }
        lemma_merge_no_end_at_max(t);
        let m = spec_merge(t);
        let iv = s.last();
        let r = merge_step(m, iv);
        assert forall|i: int| 0 <= i < r.len() implies (#[trigger] r[i]).end != Some(i64::MAX) by {
            if m.len() > 0 && spec_touch(m.last(), iv) {
                if i < m.len() - 1 {
                    assert(r[i] == m[i]);
                } else {
                    assert(m[m.len() - 1].end != Some(i64::MAX));
                }
            } else {
                if i < m.len() {
                    assert(r[i] == m[i]);
                }
            }
        }
    }
}

/// Normalizing intervals none of which ends at the largest integer leaves
/// valid intervals with a gap of at least one integer between neighbours:
/// each bounded above, the next bounded below, and the next start more
/// than one past the end before it; and the same integers as the input.
pub proof fn law_normalized_ranges_have_gaps(s: Seq<IntInterval>)
    requires
        no_end_at_max(s),
    ensures
        ({
            let r = spec_normalize(s);
            &&& all_valid(r)
            &&& forall|k: int| #![trigger r[k], r[k + 1]]
                0 <= k < r.len() - 1 ==> (r[k].end matches Some(a) && r[k + 1].start matches Some(b)
                    && a + 1 < b)
            &&& ranges_set(r) == ranges_set(s)
        }),
{
    lemma_normalize_no_end_at_max(s);
    lemma_normalize(s);
    let r = spec_normalize(s);
    assert forall|k: int| #![trigger r[k], r[k + 1]]
        0 <= k < r.len() - 1 implies (r[k].end matches Some(a) && r[k + 1].start matches Some(b)
            && a + 1 < b) by {
        assert(separated(r[k], r[k + 1]));
    }
}



/// An upper bound of `a` is at most one of `b`, where `None` is plus infinity.
pub open spec fn end_le(a: Option<i64>, b: Option<i64>) -> bool {
    match (a, b) {
        (_, None) => true,
        (None, Some(_)) => false,
        (Some(x), Some(y)) => x <= y,
    }
}

proof fn lemma_gaps_in_order(s: Seq<IntInterval>, i: int, j: int)
    requires
        normalized(s),
        no_end_at_max(s),
        0 <= i < j < s.len(),
    ensures
        s[i].end matches Some(e) && s[j].start matches Some(t) && e + 1 < t,
    decreases j - i,
{
    let k = j - 1;
    assert(separated(s[k], s[k + 1]));
    if j > i + 1 {
        lemma_gaps_in_order(s, i, j - 1);
        assert(interval_is_valid(s[j - 1]));
    }
}

proof fn lemma_split_first(s: Seq<IntInterval>)
    requires
        normalized(s),
        no_end_at_max(s),
        s.len() > 0,
    ensures
        forall|x: int| #[trigger]
            in_ranges(s, x) <==> (in_interval(s[0], x) || in_ranges(s.drop_first(), x)),
        forall|x: int| #[trigger]
            in_ranges(s.drop_first(), x) ==> (s[0].end matches Some(e) && e + 1 < x),
        normalized(s.drop_first()),
        no_end_at_max(s.drop_first()),
{
    let t = s.drop_first();
    assert forall|x: int| #[trigger]
        in_ranges(s, x) <==> (in_interval(s[0], x) || in_ranges(t, x)) by {
        if in_ranges(s, x) {
            let i = choose|i: int| 0 <= i < s.len() && #[trigger] in_interval(s[i], x);
            if i > 0 {
                assert(t[i - 1] == s[i]);
            }
        }
        if in_ranges(t, x) {
            let i = choose|i: int| 0 <= i < t.len() && #[trigger] in_interval(t[i], x);
            assert(t[i] == s[i + 1]);
        }
    }
    assert forall|x: int| #[trigger] in_ranges(t, x) implies (s[0].end matches Some(e) && e + 1
        < x) by {
        let i = choose|i: int| 0 <= i < t.len() && #[trigger] in_interval(t[i], x);
        assert(t[i] == s[i + 1]);
        lemma_gaps_in_order(s, 0, i + 1);
    }
    assert forall|k: int| 0 <= k < t.len() - 1 implies #[trigger] separated(t[k], t[k + 1]) by {
        assert(t[k] == s[k + 1]);
        assert(t[k + 1] == s[k + 2]);
        assert(separated(s[k + 1], s[k + 2]));
    }
    assert forall|i: int| 0 <= i < t.len() implies #[trigger] interval_is_valid(t[i]) by {
        assert(t[i] == s[i + 1]);
    }
    assert forall|i: int| 0 <= i < t.len() implies (#[trigger] t[i]).end != Some(i64::MAX) by {
        assert(t[i] == s[i + 1]);
    }
}

proof fn lemma_first_start_not_earlier(a: Seq<IntInterval>, b: Seq<IntInterval>)
    requires
        normalized(a),
        no_end_at_max(a),
        normalized(b),
        no_end_at_max(b),
        a.len() > 0,
        b.len() > 0,
        ranges_set(a) == ranges_set(b),
    ensures
        start_le(b[0].start, a[0].start),
{
    lemma_split_first(b);
    let a0 = a[0];
    let b0 = b[0];
    assert(interval_is_valid(a0));
    assert(interval_is_valid(b0));
    if !start_le(b0.start, a0.start) {
        let q = b0.start->0;
        let x: int = match a0.start {
            Some(p) => p as int,
            None => match a0.end {
                Some(e) => if e < q { e as int } else { q - 1 },
                None => q - 1,
            },
        };
        assert(x < q);
        assert(in_interval(a0, x));
        assert(in_ranges(a, x));
        assert(ranges_set(a).contains(x));
        assert(ranges_set(b).contains(x));
        assert(in_ranges(b, x));
        assert(!in_interval(b0, x));
        assert(false);
    }
}

proof fn lemma_first_end_not_later(a: Seq<IntInterval>, b: Seq<IntInterval>)
    requires
        normalized(a),
        no_end_at_max(a),
        normalized(b),
        no_end_at_max(b),
        a.len() > 0,
        b.len() > 0,
        ranges_set(a) == ranges_set(b),
        a[0].start == b[0].start,
    ensures
        end_le(a[0].end, b[0].end),
{
    lemma_split_first(b);
    let a0 = a[0];
    let b0 = b[0];
    assert(interval_is_valid(a0));
    assert(interval_is_valid(b0));
    if !end_le(a0.end, b0.end) {
        let e2 = b0.end->0;
        assert(b0.end != Some(i64::MAX));
        let x: int = e2 + 1;
        assert(in_interval(a0, x));
        assert(in_ranges(a, x));
        assert(ranges_set(a).contains(x));
        assert(ranges_set(b).contains(x));
        assert(in_ranges(b, x));
        assert(!in_interval(b0, x));
        assert(false);
    }
}

/// Normalized intervals none of which ends at the largest integer are
/// determined by the integers they denote: two such lists with the same
/// integers are the same list.
pub proof fn law_normal_ranges_are_determined_by_their_integers(
    a: Seq<IntInterval>,
    b: Seq<IntInterval>,
)
    requires
        normalized(a),
        no_end_at_max(a),
        normalized(b),
        no_end_at_max(b),
        ranges_set(a) == ranges_set(b),
    ensures
        a == b,
    decreases a.len(),
{
    lemma_nonempty_valid(a);
    lemma_nonempty_valid(b);
    if a.len() == 0 || b.len() == 0 {
        assert(a =~= b);
    } else {
        lemma_first_start_not_earlier(a, b);
        lemma_first_start_not_earlier(b, a);
        assert(a[0].start == b[0].start);
        lemma_first_end_not_later(a, b);
        lemma_first_end_not_later(b, a);
        assert(a[0].end == b[0].end);
        assert(a[0] == b[0]);
        lemma_split_first(a);
        lemma_split_first(b);
        let ta = a.drop_first();
        let tb = b.drop_first();
        assert forall|x: int| #[trigger] in_ranges(ta, x) <==> in_ranges(tb, x) by {
            assert(ranges_set(a).contains(x) == ranges_set(b).contains(x));
            assert(ranges_set(a).contains(x) == in_ranges(a, x));
            assert(ranges_set(b).contains(x) == in_ranges(b, x));
            assert(in_ranges(a, x) <==> (in_interval(a[0], x) || in_ranges(ta, x)));
            assert(in_ranges(b, x) <==> (in_interval(b[0], x) || in_ranges(tb, x)));
            if in_ranges(ta, x) {
                assert(!in_interval(a[0], x));
                assert(in_ranges(tb, x));
            }
            if in_ranges(tb, x) {
                assert(!in_interval(b[0], x));
                assert(in_ranges(ta, x));
            }
        }
        assert(ranges_set(ta) =~= ranges_set(tb));
        law_normal_ranges_are_determined_by_their_integers(ta, tb);
        assert forall|i: int| 0 <= i < a.len() implies a[i] == b[i] by {
            if i > 0 {
                assert(a[i] == ta[i - 1]);
                assert(b[i] == tb[i - 1]);
            }
        }
        assert(a =~= b);
    }
}


/// Normalizing keeps every end below the largest integer.
pub proof fn lemma_normalize_no_end_at_max(s: Seq<IntInterval>)
    requires
        no_end_at_max(s),
    ensures
        no_end_at_max(spec_normalize(s)),
{
    lemma_filter_no_end_at_max(s);
    lemma_sort_no_end_at_max(s.filter(valid_pred()));
    lemma_merge_no_end_at_max(spec_sort(s.filter(valid_pred())));
}

proof fn lemma_row_no_end_at_max(l: IntInterval, rs: Seq<IntInterval>)
    requires
        l.end != Some(i64::MAX),
        no_end_at_max(rs),
    ensures
        no_end_at_max(spec_row(l, rs)),
    decreases rs.len(),
{
    if rs.len() > 0 {
        let t = rs.drop_last();
        assert forall|i: int| 0 <= i < t.len() implies (#[trigger] t[i]).end != Some(i64::MAX) by {
            assert(t[i] == rs[i]);
        }
        lemma_row_no_end_at_max(l, t);
        let prev = spec_row(l, t);
        let r = rs.last();
        assert(r.end != Some(i64::MAX));
        match spec_intersect_interval(l, r) {
            Some(iv) => {
                assert forall|i: int| 0 <= i < prev.push(iv).len() implies (#[trigger] prev.push(
                    iv,
                )[i]).end != Some(i64::MAX) by {
                    if i < prev.len() {
                        assert(prev.push(iv)[i] == prev[i]);
                    }
                }
            },
            None => {},
        }
    }
}

proof fn lemma_cross_no_end_at_max(ls: Seq<IntInterval>, rs: Seq<IntInterval>)
    requires
        no_end_at_max(ls),
        no_end_at_max(rs),
    ensures
        no_end_at_max(spec_cross(ls, rs)),
    decreases ls.len(),
{
    if ls.len() > 0 {
        let t = ls.drop_last();
        assert forall|i: int| 0 <= i < t.len() implies (#[trigger] t[i]).end != Some(i64::MAX) by {
            assert(t[i] == ls[i]);
        }
        lemma_cross_no_end_at_max(t, rs);
        lemma_row_no_end_at_max(ls.last(), rs);
        let c = spec_cross(t, rs);
        let w = spec_row(ls.last(), rs);
        assert forall|i: int| 0 <= i < (c + w).len() implies (#[trigger] (c + w)[i]).end != Some(
            i64::MAX,
        ) by {
            if i < c.len() {
                assert((c + w)[i] == c[i]);
            } else {
                assert((c + w)[i] == w[i - c.len()]);
            }
        }
    }
}

/// Intersecting two range sets gives the very same intervals in either
/// order, when no interval of either ends at the largest integer.
pub proof fn law_intersect_gives_the_same_intervals_either_way(
    a: Seq<IntInterval>,
    b: Seq<IntInterval>,
)
    requires
        no_end_at_max(a),
        no_end_at_max(b),
    ensures
        spec_normalize(spec_cross(a, b)) == spec_normalize(spec_cross(b, a)),
{
    law_intersect_commutes(a, b);
    lemma_normalize(spec_cross(a, b));
    lemma_normalize(spec_cross(b, a));
    lemma_cross_no_end_at_max(a, b);
    lemma_cross_no_end_at_max(b, a);
    lemma_normalize_no_end_at_max(spec_cross(a, b));
    lemma_normalize_no_end_at_max(spec_cross(b, a));
    law_normal_ranges_are_determined_by_their_integers(
        spec_normalize(spec_cross(a, b)),
        spec_normalize(spec_cross(b, a)),
    );
}

} // verus!

