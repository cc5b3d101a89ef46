use vstd::prelude::*;

verus! {

/// The completion percentage after the row with 0-based position `done` of
/// `rows` has been collected; a grid of one row is complete at once.
pub open spec fn spec_percent(done: nat, rows: nat) -> nat {
    if rows <= 1 {
        100
    } else {
        (100 * done / ((rows - 1) as nat)) as nat
    }
}

/// The completion percentage after the row at position `done` of `rows`.
pub fn percent(done: usize, rows: usize) -> (r: usize)
    requires
        done < rows,
    ensures
        r == spec_percent(done as nat, rows as nat),
        r <= 100,
{
    if rows <= 1 {
        100
    } else {
        let q = (100u128 * done as u128) / ((rows - 1) as u128);
        proof {
            assert(100 * done <= 100 * (rows - 1)) by (nonlinear_arith) requires done <= rows - 1;
            vstd::arithmetic::div_mod::lemma_div_is_ordered((100 * done) as int, (100 * (rows - 1)) as int, (rows - 1) as int);
            vstd::arithmetic::div_mod::lemma_div_multiples_vanish(100, (rows - 1) as int);
        }
        q as usize
    }
}

/// Remembers the last percentage reported, so that each one is reported once.
pub struct ProgressTracker {
    last: usize,
    reported: bool,
}

impl ProgressTracker {
    /// Whether any percentage has been reported yet.
    pub closed spec fn spec_reported(&self) -> bool {
        self.reported
    }

    /// The last percentage reported.
    pub closed spec fn spec_last(&self) -> nat {
        self.last as nat
    }

    pub fn new() -> (r: ProgressTracker)
        ensures
            !r.spec_reported(),
    {
        ProgressTracker { last: 0, reported: false }
    }

    /// The percentage to report after the row at position `done` of `rows`:
    /// `Some` only when it differs from the last one reported.
    pub fn observe(&mut self, done: usize, rows: usize) -> (r: Option<usize>)
        requires
            done < rows,
        ensures
            ({
                let p = spec_percent(done as nat, rows as nat);
                &&& (r is Some <==> (!old(self).spec_reported() || old(self).spec_last() != p))
                &&& r matches Some(v) ==> v == p
                &&& final(self).spec_reported()
                &&& final(self).spec_last() == p
            }),
    {
        let p = percent(done, rows);
        if self.reported && self.last == p {
            None
        } else {
            self.last = p;
            self.reported = true;
            Some(p)
        }
    }
}

/// The percentage never falls as more rows are collected, and never passes 100.
pub proof fn lemma_percent_monotone(d1: nat, d2: nat, rows: nat)
    requires
        d1 <= d2 < rows,
    ensures
        spec_percent(d1, rows) <= spec_percent(d2, rows),
        spec_percent(d2, rows) <= 100,
{
    if rows > 1 {
        let r = (rows - 1) as int;
        assert(100 * d1 <= 100 * d2) by (nonlinear_arith) requires d1 <= d2;
        vstd::arithmetic::div_mod::lemma_div_is_ordered((100 * d1) as int, (100 * d2) as int, r);
        assert(100 * d2 <= 100 * r) by (nonlinear_arith) requires d2 <= r;
        vstd::arithmetic::div_mod::lemma_div_is_ordered((100 * d2) as int, 100 * r, r);
        vstd::arithmetic::div_mod::lemma_div_multiples_vanish(100, r);
    }
}

} // verus!
