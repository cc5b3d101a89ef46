use vstd::prelude::*;

verus! {

/// The worker that computes `row` when `workers` workers share the rows.
pub open spec fn spec_worker_of(row: int, workers: int) -> int {
    row % workers
}

/// The rows in `[0, rows)` that worker `worker` computes, in increasing order.
pub open spec fn stripe(rows: int, workers: int, worker: int) -> Seq<int> {
    let n = if worker < rows { (rows - worker + workers - 1) / workers } else { 0 };
    Seq::new(n as nat, |i: int| worker + i * workers)
}

/// Relies on num_cpus::get: the number of logical CPUs available to this
/// process, documented to be at least one.
#[verifier::external_body]
fn logical_cpus() -> (r: usize)
    ensures
        r >= 1,
{
    num_cpus::get()
}

/// The size of the worker pool: the hardware parallelism of this machine.
pub fn worker_count() -> (r: usize)
    ensures
        r >= 1,
{
    logical_cpus()
}

/// The worker that computes `row`: rows are dealt out in stripes.
pub fn worker_of(row: usize, workers: usize) -> (r: usize)
    requires
        workers >= 1,
    ensures
        r == spec_worker_of(row as int, workers as int),
        r < workers,
{
    row % workers
}

/// The rows of `[0, rows)` that worker `worker` computes, in increasing order.
pub fn rows_for_worker(rows: usize, workers: usize, worker: usize) -> (r: Vec<usize>)
    requires
        workers >= 1,
        worker < workers,
    ensures
        r@.len() == stripe(rows as int, workers as int, worker as int).len(),
        forall|i: int| 0 <= i < r@.len() ==> #[trigger] r@[i] as int == stripe(rows as int, workers as int, worker as int)[i],
        forall|i: int| 0 <= i < r@.len() ==> #[trigger] r@[i] < rows
            && spec_worker_of(r@[i] as int, workers as int) == worker,
{
    let mut out: Vec<usize> = Vec::new();
    let mut row: usize = worker;
    let mut done = worker >= rows;
    let ghost s = stripe(rows as int, workers as int, worker as int);
    proof {
        lemma_stripe_next(rows as int, workers as int, worker as int, 0);
        assert(worker + 0 * workers == worker) by (nonlinear_arith);
    }
    while !done
        invariant
            workers >= 1,
            worker < workers,
            s == stripe(rows as int, workers as int, worker as int),
            !done ==> row as int == worker + (out@.len() as int) * (workers as int),
            out@.len() <= s.len(),
            done <==> out@.len() == s.len(),
            !done ==> row < rows,
            out@.map_values(|x: usize| x as int) == s.subrange(0, out@.len() as int),
            forall|i: int| 0 <= i < out@.len() ==> #[trigger] out@[i] < rows
                && spec_worker_of(out@[i] as int, workers as int) == worker,
        decreases s.len() - out@.len(),
    {
        let ghost k = out@.len() as int;
        proof {
            vstd::arithmetic::div_mod::lemma_mod_multiples_vanish(k, worker as int, workers as int);
            vstd::arithmetic::div_mod::lemma_small_mod(worker as nat, workers as nat);
            assert((worker + k * workers) % (workers as int) == worker) by (nonlinear_arith)
                requires
                    (workers * k + worker) % (workers as int) == (worker as int) % (workers as int),
                    (worker as int) % (workers as int) == worker;
            lemma_stripe_next(rows as int, workers as int, worker as int, k);
            lemma_stripe_next(rows as int, workers as int, worker as int, k + 1);
            assert((worker as int) + (k + 1) * (workers as int) == (worker as int) + k * (workers as int) + (workers as int)) by (nonlinear_arith);
        }
        out.push(row);
        proof {
            assert(out@.map_values(|x: usize| x as int) =~= s.subrange(0, out@.len() as int));
        }
        assert(out@.len() == k + 1);
        if rows - row <= workers {
            done = true;
        } else {
            row = row + workers;
        }
    }
    proof {
        assert(out@.map_values(|x: usize| x as int) =~= s);
        assert forall|i: int| 0 <= i < out@.len() implies #[trigger] out@[i] as int == s[i] by {
            assert(out@.map_values(|x: usize| x as int)[i] == out@[i] as int);
        }
    }
    out
}

/// Every row of `[0, rows)` is computed by exactly one worker: it lies in the
/// stripe of `row % workers` and in no other worker's stripe, whatever the
/// number of workers.
pub proof fn lemma_stripes_cover_exactly(rows: int, workers: int, row: int)
    requires
        workers >= 1,
        0 <= row < rows,
    ensures
        stripe(rows, workers, spec_worker_of(row, workers)).contains(row),
        forall|w: int| 0 <= w < workers && w != spec_worker_of(row, workers)
            ==> !#[trigger] stripe(rows, workers, w).contains(row),
{
    let w = row % workers;
    let q = row / workers;
    vstd::arithmetic::div_mod::lemma_fundamental_div_mod(row, workers);
    vstd::arithmetic::div_mod::lemma_mod_bound(row, workers);
    vstd::arithmetic::div_mod::lemma_div_pos_is_pos(row, workers);
    lemma_stripe_len(rows, workers, w);
    assert(w + q * workers == row) by (nonlinear_arith)
        requires row == workers * q + w;
    assert(stripe(rows, workers, w)[q] == row);
    assert forall|v: int| 0 <= v < workers && v != w implies !#[trigger] stripe(rows, workers, v).contains(row) by {
        if stripe(rows, workers, v).contains(row) {
            let i = choose|i: int| 0 <= i < stripe(rows, workers, v).len() && stripe(rows, workers, v)[i] == row;
            vstd::arithmetic::div_mod::lemma_mod_multiples_vanish(i, v, workers);
            vstd::arithmetic::div_mod::lemma_small_mod(v as nat, workers as nat);
            assert((v + i * workers) % workers == v) by (nonlinear_arith)
                requires (workers * i + v) % workers == v % workers, v % workers == v;
        }
    }
}

/// A stripe has one row for each multiple of `workers` that keeps
/// `worker + i * workers` below `rows`.
proof fn lemma_stripe_len(rows: int, workers: int, worker: int)
    requires
        workers >= 1,
        0 <= worker < workers,
        rows >= 0,
    ensures
        forall|i: int| 0 <= i ==> (i < stripe(rows, workers, worker).len() <==> #[trigger] (worker + i * workers) < rows),
{
    assert forall|i: int| 0 <= i implies (i < stripe(rows, workers, worker).len() <==> #[trigger] (worker + i * workers) < rows) by {
        if worker < rows {
            let n = (rows - worker + workers - 1) / workers;
            vstd::arithmetic::div_mod::lemma_fundamental_div_mod(rows - worker + workers - 1, workers);
            let q = n;
            let m = (rows - worker + workers - 1) % workers;
            assert(0 <= m < workers) by {
                vstd::arithmetic::div_mod::lemma_mod_bound(rows - worker + workers - 1, workers);
            }
            assert(i < n <==> worker + i * workers < rows) by (nonlinear_arith)
                requires
                    rows - worker + workers - 1 == workers * q + m,
                    0 <= m < workers,
                    n == q,
                    0 <= i,
                    workers >= 1;
        } else {
            assert(worker + i * workers >= rows) by (nonlinear_arith)
                requires worker >= rows, i >= 0, workers >= 1;
        }
    }
}

proof fn lemma_stripe_next(rows: int, workers: int, worker: int, k: int)
    requires
        workers >= 1,
        0 <= worker < workers,
        rows >= 0,
        k >= 0,
    ensures
        k < stripe(rows, workers, worker).len() <==> worker + k * workers < rows,
{
    lemma_stripe_len(rows, workers, worker);
    assert(k < stripe(rows, workers, worker).len() <==> (worker + k * workers) < rows);
}

} // verus!
