use vstd::prelude::*;

verus! {

/// The fields of a LiDAR point that its summary reads.
#[derive(Clone, Copy, Debug, PartialEq, Eq, Structural)]
pub struct PointRecord {
    /// Which return of its pulse this point is, counted from 1.
    pub return_number: u8,
    /// How many returns its pulse had.
    pub number_of_returns: u8,
    /// The ASPRS class value.
    pub classification: u8,
    pub intensity: u16,
}

/// Where a point stands among the returns of its pulse.
#[derive(Clone, Copy, Debug, PartialEq, Eq, Structural)]
pub enum ReturnPosition {
    Only,
    First,
    Last,
    Intermediate,
}

/// The return number with everything past the fifth counted as the fifth.
pub open spec fn clamped_return(p: PointRecord) -> int {
    if p.return_number > 5 { 5 } else { p.return_number as int }
}

pub open spec fn spec_position(p: PointRecord) -> ReturnPosition {
    let ret = clamped_return(p);
    if p.number_of_returns == 1 {
        ReturnPosition::Only
    } else if ret == 1 && p.number_of_returns > 1 {
        ReturnPosition::First
    } else if ret == p.number_of_returns {
        ReturnPosition::Last
    } else {
        ReturnPosition::Intermediate
    }
}

/// How many points of `s` have clamped return number `r`.
pub open spec fn count_return(s: Seq<PointRecord>, r: int) -> nat
    decreases s.len(),
{
    if s.len() == 0 {
        0
    } else {
        count_return(s.drop_last(), r) + if clamped_return(s.last()) == r { 1nat } else { 0nat }
    }
}

/// How many points of `s` have class `c`.
pub open spec fn count_class(s: Seq<PointRecord>, c: int) -> nat
    decreases s.len(),
{
    if s.len() == 0 {
        0
    } else {
        count_class(s.drop_last(), c) + if s.last().classification == c { 1nat } else { 0nat }
    }
}

/// How many points of `s` stand at position `pos`.
pub open spec fn count_position(s: Seq<PointRecord>, pos: ReturnPosition) -> nat
    decreases s.len(),
{
    if s.len() == 0 {
        0
    } else {
        count_position(s.drop_last(), pos) + if spec_position(s.last()) == pos { 1nat } else { 0nat }
    }
}

/// The least intensity in `s`, or `u16::MAX` for no points.
pub open spec fn min_intensity(s: Seq<PointRecord>) -> u16
    decreases s.len(),
{
    if s.len() == 0 {
        u16::MAX
    } else {
        let m = min_intensity(s.drop_last());
        if s.last().intensity < m { s.last().intensity } else { m }
    }
}

/// The greatest intensity in `s`, or `0` for no points.
pub open spec fn max_intensity(s: Seq<PointRecord>) -> u16
    decreases s.len(),
{
    if s.len() == 0 {
        0
    } else {
        let m = max_intensity(s.drop_last());
        if s.last().intensity > m { s.last().intensity } else { m }
    }
}

/// The statistics that a LAS summary reports.
pub struct PointSummary {
    /// Points per clamped return number: entry `k` counts return `k + 1`.
    pub by_return: Vec<u64>,
    /// Points per class value: 256 entries.
    pub classes: Vec<u64>,
    pub only: u64,
    pub first: u64,
    pub last: u64,
    pub intermediate: u64,
    pub min_intensity: u16,
    pub max_intensity: u16,
}

/// Where a point stands among the returns of its pulse.
pub fn position(p: PointRecord) -> (r: ReturnPosition)
    ensures
        r == spec_position(p),
{
    let ret: u8 = if p.return_number > 5 { 5 } else { p.return_number };
    if p.number_of_returns == 1 {
        ReturnPosition::Only
    } else if ret == 1 && p.number_of_returns > 1 {
        ReturnPosition::First
    } else if ret == p.number_of_returns {
        ReturnPosition::Last
    } else {
        ReturnPosition::Intermediate
    }
}

fn zeros(n: usize) -> (r: Vec<u64>)
    ensures
        r@.len() == n,
        forall|i: int| 0 <= i < n ==> #[trigger] r@[i] == 0,
{
    let mut v: Vec<u64> = Vec::new();
    let mut i: usize = 0;
    while i < n
        invariant
            i <= n,
            v@.len() == i,
            forall|j: int| 0 <= j < i ==> #[trigger] v@[j] == 0,
        decreases n - i,
    {
        v.push(0);
        i += 1;
    }
    v
}

/// Counts the points by return number, by position among their pulse's
/// returns and by class, and finds their intensity range. Every point's
/// return number is at least 1.
pub fn summarize(points: &Vec<PointRecord>) -> (r: PointSummary)
    requires
        forall|i: int| 0 <= i < points@.len() ==> #[trigger] points@[i].return_number >= 1,
    ensures
        r.by_return@.len() == 5,
        forall|k: int| 0 <= k < 5 ==> #[trigger] r.by_return@[k] == count_return(points@, k + 1),
        r.classes@.len() == 256,
        forall|c: int| 0 <= c < 256 ==> #[trigger] r.classes@[c] == count_class(points@, c),
        r.only == count_position(points@, ReturnPosition::Only),
        r.first == count_position(points@, ReturnPosition::First),
        r.last == count_position(points@, ReturnPosition::Last),
        r.intermediate == count_position(points@, ReturnPosition::Intermediate),
        r.only + r.first + r.last + r.intermediate == points@.len(),
        r.min_intensity == min_intensity(points@),
        r.max_intensity == max_intensity(points@),
{
    let mut by_return = zeros(5);
    let mut classes = zeros(256);
    let mut only: u64 = 0;
    let mut first: u64 = 0;
    let mut last: u64 = 0;
    let mut intermediate: u64 = 0;
    let mut min_i: u16 = u16::MAX;
    let mut max_i: u16 = 0;
    let mut i: usize = 0;
    while i < points.len()
        invariant
            i <= points@.len(),
            forall|j: int| 0 <= j < points@.len() ==> #[trigger] points@[j].return_number >= 1,
            by_return@.len() == 5,
            classes@.len() == 256,
            forall|k: int| 0 <= k < 5 ==> #[trigger] by_return@[k] == count_return(points@.take(i as int), k + 1),
            forall|c: int| 0 <= c < 256 ==> #[trigger] classes@[c] == count_class(points@.take(i as int), c),
            forall|k: int| 0 <= k < 5 ==> #[trigger] count_return(points@.take(i as int), k + 1) <= i,
            forall|c: int| 0 <= c < 256 ==> #[trigger] count_class(points@.take(i as int), c) <= i,
            only == count_position(points@.take(i as int), ReturnPosition::Only),
            first == count_position(points@.take(i as int), ReturnPosition::First),
            last == count_position(points@.take(i as int), ReturnPosition::Last),
            intermediate == count_position(points@.take(i as int), ReturnPosition::Intermediate),
            only + first + last + intermediate == i,
            min_i == min_intensity(points@.take(i as int)),
            max_i == max_intensity(points@.take(i as int)),
        decreases points@.len() - i,
    {
        let p = points[i];
        let ghost prev = points@.take(i as int);
        let ghost next = points@.take(i + 1);
        proof { assert(next.drop_last() =~= prev); assert(next.last() == p); }
        let ret: usize = if p.return_number > 5 { 5 } else { p.return_number as usize };
        let slot = ret - 1;
        let ghost old_returns = by_return@;
        let v = by_return[slot];
        by_return.set(slot, v + 1);
        let ghost old_classes = classes@;
        let c = p.classification as usize;
        let w = classes[c];
        classes.set(c, w + 1);
        match position(p) {
            ReturnPosition::Only => only += 1,
            ReturnPosition::First => first += 1,
            ReturnPosition::Last => last += 1,
            ReturnPosition::Intermediate => intermediate += 1,
        }
        if p.intensity > max_i {
            max_i = p.intensity;
        }
        if p.intensity < min_i {
            min_i = p.intensity;
        }
        i += 1;
        proof {
            assert forall|k: int| 0 <= k < 5 implies #[trigger] count_return(next, k + 1) <= i by {
                assert(count_return(next, k + 1) == count_return(prev, k + 1) + if clamped_return(p) == k + 1 { 1nat } else { 0nat });
                assert(count_return(prev, k + 1) <= i - 1);
            }
            assert forall|cc: int| 0 <= cc < 256 implies #[trigger] count_class(next, cc) <= i by {
                assert(count_class(next, cc) == count_class(prev, cc) + if p.classification == cc { 1nat } else { 0nat });
                assert(count_class(prev, cc) <= i - 1);
            }
            assert forall|k: int| 0 <= k < 5 implies #[trigger] by_return@[k] == count_return(next, k + 1) by {
                assert(count_return(next, k + 1) == count_return(prev, k + 1) + if clamped_return(p) == k + 1 { 1nat } else { 0nat });
                assert(count_return(prev, k + 1) <= i - 1);
            }
            assert forall|cc: int| 0 <= cc < 256 implies #[trigger] classes@[cc] == count_class(next, cc) by {
                assert(count_class(next, cc) == count_class(prev, cc) + if p.classification == cc { 1nat } else { 0nat });
                assert(count_class(prev, cc) <= i - 1);
            }
        }
    }
    proof { assert(points@.take(i as int) =~= points@); }
    PointSummary { by_return, classes, only, first, last, intermediate, min_intensity: min_i, max_intensity: max_i }
}

} // verus!
