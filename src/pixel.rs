use vstd::prelude::*;

verus! {

/// Which formula the engine evaluates.
#[derive(Clone, Copy, Debug, PartialEq, Eq, Structural)]
pub enum IndexMode {
    /// `(a - b) / (a + b)`.
    Standard,
    /// `(a - b) / (a + b + 0.16)`, the optimised soil-adjusted index.
    SoilAdjusted,
}

impl IndexMode {
    /// The constant added to the denominator, in hundredths.
    pub open spec fn spec_correction_hundredths(self) -> nat {
        match self {
            IndexMode::Standard => 0,
            IndexMode::SoilAdjusted => 16,
        }
    }

    pub fn from_flag(soil_adjusted: bool) -> (r: IndexMode)
        ensures
            soil_adjusted ==> r == IndexMode::SoilAdjusted,
            !soil_adjusted ==> r == IndexMode::Standard,
    {
        if soil_adjusted { IndexMode::SoilAdjusted } else { IndexMode::Standard }
    }

    /// The constant added to the denominator, in hundredths (so `16` stands for `0.16`).
    pub fn correction_hundredths(&self) -> (r: u64)
        ensures
            r == self.spec_correction_hundredths(),
    {
        match self {
            IndexMode::Standard => 0,
            IndexMode::SoilAdjusted => 16,
        }
    }
}

/// What was observed of one pixel before the formula is applied.
#[derive(Clone, Copy, Debug, PartialEq, Eq, Structural)]
pub struct PixelTest {
    /// The first band's sample equals the first band's nodata value.
    pub a_nodata: bool,
    /// The second band's sample equals the second band's nodata value.
    pub b_nodata: bool,
    /// `a + b + c` is zero.
    pub denominator_zero: bool,
}

/// What the output pixel holds.
#[derive(Clone, Copy, Debug, PartialEq, Eq, Structural)]
pub enum PixelRule {
    /// The output sentinel, which is the first band's nodata value.
    Nodata,
    /// The quotient `(a - b) / (a + b + c)`.
    Ratio,
}

/// A nodata input gives nodata; so does a zero denominator; else the ratio.
pub open spec fn spec_pixel_rule(t: PixelTest) -> PixelRule {
    if t.a_nodata || t.b_nodata || t.denominator_zero {
        PixelRule::Nodata
    } else {
        PixelRule::Ratio
    }
}

/// The rule for one pixel.
pub fn pixel_rule(t: PixelTest) -> (r: PixelRule)
    ensures
        r == spec_pixel_rule(t),
{
    if t.a_nodata || t.b_nodata {
        PixelRule::Nodata
    } else if t.denominator_zero {
        PixelRule::Nodata
    } else {
        PixelRule::Ratio
    }
}

/// The output value of one pixel, given its quotient.
pub open spec fn spec_pixel_value<T>(t: PixelTest, quotient: T, nodata: T) -> T {
    match spec_pixel_rule(t) {
        PixelRule::Nodata => nodata,
        PixelRule::Ratio => quotient,
    }
}

/// One output row: for each column, `nodata` where the rule says so and the
/// column's quotient elsewhere. The row depends on this row's tests and
/// quotients alone.
pub fn evaluate_row<T: Copy>(tests: &Vec<PixelTest>, quotients: &Vec<T>, nodata: T) -> (r: Vec<T>)
    requires
        tests@.len() == quotients@.len(),
    ensures
        r@.len() == tests@.len(),
        forall|c: int| 0 <= c < r@.len() ==> #[trigger] r@[c] == spec_pixel_value(tests@[c], quotients@[c], nodata),
{
    let mut out: Vec<T> = Vec::new();
    let mut c: usize = 0;
    while c < tests.len()
        invariant
            tests@.len() == quotients@.len(),
            c <= tests@.len(),
            out@.len() == c,
            forall|j: int| 0 <= j < c ==> #[trigger] out@[j] == spec_pixel_value(tests@[j], quotients@[j], nodata),
        decreases tests@.len() - c,
    {
        let v = match pixel_rule(tests[c]) {
            PixelRule::Nodata => nodata,
            PixelRule::Ratio => quotients[c],
        };
        out.push(v);
        c += 1;
    }
    out
}

/// A pixel with a nodata input is nodata in the output, whatever its quotient.
pub proof fn lemma_nodata_propagates<T>(t: PixelTest, quotient: T, nodata: T)
    requires
        t.a_nodata || t.b_nodata,
    ensures
        spec_pixel_value(t, quotient, nodata) == nodata,
{
}

/// With neither input nodata, a zero denominator gives nodata and any other
/// denominator gives the quotient.
pub proof fn lemma_valid_pixel<T>(t: PixelTest, quotient: T, nodata: T)
    requires
        !t.a_nodata,
        !t.b_nodata,
    ensures
        t.denominator_zero ==> spec_pixel_value(t, quotient, nodata) == nodata,
        !t.denominator_zero ==> spec_pixel_value(t, quotient, nodata) == quotient,
{
}

} // verus!
