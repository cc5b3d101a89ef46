use vstd::prelude::*;

verus! {

/// The sign bit of a 64-bit IEEE 754 value.
pub const SIGN_BIT: u64 = 0x8000_0000_0000_0000;

/// A key whose unsigned order is the numeric order of the IEEE 754 value
/// with bit pattern `bits`: negative values are flipped below the positive ones.
pub open spec fn spec_order_key(bits: u64) -> u64 {
    if bits >= SIGN_BIT {
        (u64::MAX - bits) as u64
    } else {
        (bits + SIGN_BIT) as u64
    }
}

/// The bit pattern whose order key is `key`.
pub open spec fn spec_bits_of_key(key: u64) -> u64 {
    if key >= SIGN_BIT {
        (key - SIGN_BIT) as u64
    } else {
        (u64::MAX - key) as u64
    }
}

/// The order key of an IEEE 754 bit pattern.
pub fn order_key(bits: u64) -> (r: u64)
    ensures
        r == spec_order_key(bits),
{
    if bits >= SIGN_BIT {
        u64::MAX - bits
    } else {
        bits + SIGN_BIT
    }
}

/// The IEEE 754 bit pattern of an order key.
pub fn bits_of_key(key: u64) -> (r: u64)
    ensures
        r == spec_bits_of_key(key),
{
    if key >= SIGN_BIT {
        key - SIGN_BIT
    } else {
        u64::MAX - key
    }
}

/// Turning a bit pattern into its key and back gives the bit pattern again,
/// and the other way round.
pub proof fn lemma_order_key_round_trip(bits: u64, key: u64)
    ensures
        spec_bits_of_key(spec_order_key(bits)) == bits,
        spec_order_key(spec_bits_of_key(key)) == key,
{
}

/// The entries of `s` that are not `nodata`, in their order.
pub open spec fn valid_values(s: Seq<u64>, nodata: u64) -> Seq<u64>
    decreases s.len(),
{
    if s.len() == 0 {
        Seq::empty()
    } else {
        let prefix = valid_values(s.drop_last(), nodata);
        if s.last() != nodata {
            prefix.push(s.last())
        } else {
            prefix
        }
    }
}

pub open spec fn is_sorted(s: Seq<u64>) -> bool {
    forall|i: int, j: int| 0 <= i <= j < s.len() ==> s[i] <= s[j]
}

/// `s` holds the values of `values` in increasing order.
pub open spec fn is_sorted_of(s: Seq<u64>, values: Seq<u64>) -> bool {
    &&& is_sorted(s)
    &&& s.len() == values.len()
    &&& s.to_multiset() == values.to_multiset()
}

/// The rank of the lower clip bound among `n` values when `basis_points`
/// hundredths of a percent are clipped from the two tails together: half of
/// it from each tail, never past the middle.
pub open spec fn tail_rank(n: nat, basis_points: nat) -> nat {
    let k = n * basis_points / 20000;
    let middle = ((n - 1) / 2) as nat;
    if k < middle { k } else { middle }
}

/// `lo` and `hi` are the values at ranks `k` and `n - 1 - k` of `values`.
pub open spec fn are_rank_values(values: Seq<u64>, k: nat, lo: u64, hi: u64) -> bool {
    exists|s: Seq<u64>| #[trigger] is_sorted_of(s, values) && k < s.len() && lo == s[k as int]
        && hi == s[s.len() - 1 - k]
}

pub open spec fn clamp_key(x: u64, lo: u64, hi: u64) -> u64 {
    if x < lo { lo } else if x > hi { hi } else { x }
}

/// Relies on slice::sort_unstable: it sorts the slice in increasing order,
/// keeping its elements.
#[verifier::external_body]
fn sort_keys(v: &mut Vec<u64>)
    ensures
        is_sorted(final(v)@),
        final(v)@.len() == old(v)@.len(),
        final(v)@.to_multiset() == old(v)@.to_multiset(),
{
    v.sort_unstable();
}

/// The values of `values` that are not `nodata`.
pub fn collect_valid(values: &Vec<u64>, nodata: u64) -> (r: Vec<u64>)
    ensures
        r@ == valid_values(values@, nodata),
{
    let mut out: Vec<u64> = Vec::new();
    let mut i: usize = 0;
    while i < values.len()
        invariant
            i <= values@.len(),
            out@ == valid_values(values@.subrange(0, i as int), nodata),
        decreases values@.len() - i,
    {
        proof { assert(values@.subrange(0, i + 1).drop_last() =~= values@.subrange(0, i as int)); }
        if values[i] != nodata {
            out.push(values[i]);
        }
        i += 1;
    }
    proof { assert(values@.subrange(0, values@.len() as int) =~= values@); }
    out
}

/// The lower and upper clip bounds: the values at ranks `tail_rank(n, basis_points)`
/// and `n - 1 - tail_rank(n, basis_points)` among the `n` values that are not
/// `nodata`; `None` when there are none.
pub fn percentile_bounds(values: &Vec<u64>, nodata: u64, basis_points: u64) -> (r: Option<(u64, u64)>)
    ensures
        r is None <==> valid_values(values@, nodata).len() == 0,
        r matches Some((lo, hi)) ==> lo <= hi && are_rank_values(
            valid_values(values@, nodata),
            tail_rank(valid_values(values@, nodata).len(), basis_points as nat),
            lo,
            hi,
        ),
{
    let mut valid = collect_valid(values, nodata);
    let ghost before = valid@;
    let n = valid.len();
    if n == 0 {
        return None;
    }
    sort_keys(&mut valid);
    proof {
        assert((n as u128) * (basis_points as u128) <= u64::MAX as int * u64::MAX as int) by (nonlinear_arith)
            requires n <= u64::MAX, basis_points <= u64::MAX;
    }
    let raw = (n as u128) * (basis_points as u128) / 20000;
    let middle = (n - 1) / 2;
    let k: usize = if raw < middle as u128 { raw as usize } else { middle };
    proof {
        assert(k == tail_rank(n as nat, basis_points as nat));
        assert(k + k <= n - 1);
    }
    let lo = valid[k];
    let hi = valid[n - 1 - k];
    proof {
        assert(is_sorted_of(valid@, before));
    }
    Some((lo, hi))
}

/// Clamps every value that is not `nodata` into the percentile bounds of
/// `percentile_bounds`; `basis_points` of zero leaves the values as they are.
/// Returns the bounds used.
pub fn clip_by_percent(values: &mut Vec<u64>, nodata: u64, basis_points: u64) -> (r: Option<(u64, u64)>)
    ensures
        basis_points == 0 ==> r is None,
        basis_points > 0 ==> (r is None <==> valid_values(old(values)@, nodata).len() == 0),
        r is None ==> final(values)@ == old(values)@,
        r matches Some((lo, hi)) ==> {
            &&& lo <= hi
            &&& are_rank_values(
                valid_values(old(values)@, nodata),
                tail_rank(valid_values(old(values)@, nodata).len(), basis_points as nat),
                lo,
                hi,
            )
            &&& final(values)@.len() == old(values)@.len()
            &&& forall|i: int| 0 <= i < old(values)@.len() ==> #[trigger] final(values)@[i] == if old(values)@[i] == nodata {
                nodata
            } else {
                clamp_key(old(values)@[i], lo, hi)
            }
            &&& forall|i: int| 0 <= i < old(values)@.len() && old(values)@[i] != nodata
                ==> lo <= #[trigger] final(values)@[i] <= hi
        },
{
    if basis_points == 0 {
        return None;
    }
    let (lo, hi) = match percentile_bounds(values, nodata, basis_points) {
        Some(b) => b,
        None => return None,
    };
    let ghost before = values@;
    let mut i: usize = 0;
    while i < values.len()
        invariant
            lo <= hi,
            i <= values@.len(),
            values@.len() == before.len(),
            forall|j: int| 0 <= j < before.len() ==> #[trigger] values@[j] == if j < i {
                if before[j] == nodata { nodata } else { clamp_key(before[j], lo, hi) }
            } else {
                before[j]
            },
        decreases values@.len() - i,
    {
        let x = values[i];
        if x != nodata {
            let y = if x < lo { lo } else if x > hi { hi } else { x };
            values.set(i, y);
        }
        i += 1;
    }
    Some((lo, hi))
}

} // verus!
