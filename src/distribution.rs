use vstd::prelude::*;

verus! {

/// The share of worker `idx` when `total` is split across `workers`: the
/// quotient, plus one for each of the first `total % workers` workers.
pub open spec fn share(idx: int, total: int, workers: int) -> int {
    total / workers + if idx < total % workers { 1int } else { 0int }
}

/// The sum of the shares of the first `k` workers.
pub open spec fn sum_shares(k: int, total: int, workers: int) -> int
    decreases k,
{
    if k <= 0 {
        0
    } else {
        sum_shares(k - 1, total, workers) + share(k - 1, total, workers)
    }
}

/// The amount of `total` that worker `thread_idx` of `threads` takes.
pub fn per_thread_amount(thread_idx: usize, total: usize, threads: usize) -> (r: usize)
    requires
        threads > 0,
    ensures
        r == share(thread_idx as int, total as int, threads as int),
{
    let per_thread = total / threads;
    let extras = total % threads;
    if thread_idx < extras {
        proof {
            let (q, n, t) = (per_thread as int, threads as int, total as int);
            assert(q * n + extras as int == t) by (nonlinear_arith)
                requires q == t / n, extras as int == t % n, n > 0;
            assert(q * 2 <= t) by (nonlinear_arith)
                requires q * n + extras as int == t, n >= 2, q >= 0, extras >= 0;
        }
        per_thread + 1
    } else {
        per_thread
    }
}

proof fn lemma_sum_shares_closed(k: int, total: int, workers: int)
    requires
        0 <= k,
        0 <= total,
        0 < workers,
    ensures
        sum_shares(k, total, workers) == k * (total / workers) + if k < total % workers {
            k
        } else {
            total % workers
        },
    decreases k,
{
    if k > 0 {
        lemma_sum_shares_closed(k - 1, total, workers);
        let q = total / workers;
        assert((k - 1) * q + q == k * q) by (nonlinear_arith);
    } else {
        assert(k == 0);
        assert(0 * (total / workers) == 0) by (nonlinear_arith);
    }
}

/// Even distribution: splitting `total` across `workers` gives each worker the
/// floor or the ceiling of the quotient, the larger shares to the lowest
/// indices, and the shares sum to exactly `total`.
pub proof fn lemma_even_distribution(total: int, workers: int)
    requires
        0 <= total,
        0 < workers,
    ensures
        sum_shares(workers, total, workers) == total,
        forall|i: int|
            0 <= i < workers ==> share(i, total, workers) == total / workers || (total % workers
                != 0 && share(i, total, workers) == total / workers + 1),
        forall|i: int, j: int|
            0 <= i < j < workers ==> share(i, total, workers) >= share(j, total, workers),
{
    lemma_sum_shares_closed(workers, total, workers);
    assert(workers * (total / workers) + total % workers == total) by (nonlinear_arith)
        requires 0 < workers;
}

} // verus!
