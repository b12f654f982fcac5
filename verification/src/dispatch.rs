//! The parallel draw dispatcher's partition and merge rules.
//!
//! The live object pool is split into contiguous index ranges, one per
//! worker. The chunk width is the rounded-up division of the pool size by
//! the worker count, so the union of all ranges covers the whole pool with
//! no overlap and no gap. Workers hand back one partial result each; partial
//! results are merged in worker-index order, and one failing worker fails
//! the whole batch after every worker has been joined.

use vstd::prelude::*;

use crate::error::RuntimeError;

verus! {

/// The chunk width used to split `pool_size` items across `num_threads`
/// workers: the division rounded up, so every item lands in some chunk.
pub open spec fn chunk_size(pool_size: int, num_threads: int) -> int {
    (pool_size + num_threads - 1) / num_threads
}

/// The half-open index range worker `i` owns.
pub open spec fn worker_range_spec(pool_size: int, num_threads: int, i: int) -> (int, int) {
    let c = chunk_size(pool_size, num_threads);
    let lo = if i * c < pool_size {
        i * c
    } else {
        pool_size
    };
    let hi = if (i + 1) * c < pool_size {
        (i + 1) * c
    } else {
        pool_size
    };
    (lo, hi)
}

/// The half-open index range `[r.0, r.1)` of worker `i`.
pub fn worker_range(pool_size: usize, num_threads: usize, i: usize) -> (r: (usize, usize))
    requires
        num_threads >= 1,
        i < num_threads,
        pool_size + num_threads <= usize::MAX,
    ensures
        r.0 as int == worker_range_spec(pool_size as int, num_threads as int, i as int).0,
        r.1 as int == worker_range_spec(pool_size as int, num_threads as int, i as int).1,
        r.0 <= r.1 <= pool_size,
{
    let c = (pool_size + num_threads - 1) / num_threads;
    let lo = match i.checked_mul(c) {
        Some(p) => if p < pool_size {
            p
        } else {
            pool_size
        },
        None => pool_size,
    };
    let hi = match (i + 1).checked_mul(c) {
        Some(p) => if p < pool_size {
            p
        } else {
            pool_size
        },
        None => pool_size,
    };
    proof {
        let ci = chunk_size(pool_size as int, num_threads as int);
        assert(ci == c);
        assert(i as int * ci <= (i + 1) as int * ci) by (nonlinear_arith)
            requires ci >= 0;
    }
    (lo, hi)
}

/// Partition coverage, existence half: every pool index lies in the range of
/// worker `x / chunk`, a valid worker index.
pub proof fn lemma_partition_covers(pool_size: int, num_threads: int, x: int)
    requires
        num_threads >= 1,
        0 <= x < pool_size,
    ensures
        ({
            let c = chunk_size(pool_size, num_threads);
            let i = x / c;
            &&& 0 <= i < num_threads
            &&& worker_range_spec(pool_size, num_threads, i).0 <= x < worker_range_spec(
                pool_size,
                num_threads,
                i,
            ).1
        }),
{
    let c = chunk_size(pool_size, num_threads);
    vstd::arithmetic::div_mod::lemma_fundamental_div_mod(pool_size + num_threads - 1, num_threads);
    let rc = (pool_size + num_threads - 1) % num_threads;
    vstd::arithmetic::div_mod::lemma_mod_bound(pool_size + num_threads - 1, num_threads);
    assert(pool_size + num_threads - 1 == num_threads * c + rc);
    assert(c >= 1) by (nonlinear_arith)
        requires
            pool_size + num_threads - 1 == num_threads * c + rc,
            0 <= rc < num_threads,
            pool_size >= 1,
            num_threads >= 1,
    ;
    assert(num_threads * c >= pool_size) by (nonlinear_arith)
        requires
            pool_size + num_threads - 1 == num_threads * c + rc,
            0 <= rc < num_threads,
    ;
    let i = x / c;
    vstd::arithmetic::div_mod::lemma_fundamental_div_mod(x, c);
    vstd::arithmetic::div_mod::lemma_mod_bound(x, c);
    let rx = x % c;
    assert(x == c * i + rx);
    assert(i >= 0) by (nonlinear_arith)
        requires
            x == c * i + rx,
            0 <= rx < c,
            x >= 0,
    ;
    assert(i < num_threads) by (nonlinear_arith)
        requires
            x == c * i + rx,
            0 <= rx < c,
            x < pool_size,
            num_threads * c >= pool_size,
    ;
    assert(i * c <= x) by (nonlinear_arith)
        requires
            x == c * i + rx,
            0 <= rx,
    ;
    assert(x < (i + 1) * c) by (nonlinear_arith)
        requires
            x == c * i + rx,
            rx < c,
    ;
}

/// Partition coverage, disjointness half: ranges of distinct workers never
/// overlap — an earlier worker's range ends before a later worker's begins.
pub proof fn lemma_partition_disjoint(pool_size: int, num_threads: int, i: int, j: int)
    requires
        pool_size >= 0,
        num_threads >= 1,
        0 <= i < j < num_threads,
    ensures
        worker_range_spec(pool_size, num_threads, i).1 <= worker_range_spec(
            pool_size,
            num_threads,
            j,
        ).0,
{
    let c = chunk_size(pool_size, num_threads);
    vstd::arithmetic::div_mod::lemma_fundamental_div_mod(pool_size + num_threads - 1, num_threads);
    vstd::arithmetic::div_mod::lemma_mod_bound(pool_size + num_threads - 1, num_threads);
    let rc = (pool_size + num_threads - 1) % num_threads;
    assert(c >= 0) by (nonlinear_arith)
        requires
            pool_size + num_threads - 1 == num_threads * c + rc,
            0 <= rc < num_threads,
            pool_size >= 0,
            num_threads >= 1,
    ;
    assert((i + 1) * c <= j * c) by (nonlinear_arith)
        requires
            c >= 0,
            i + 1 <= j,
    ;
}

/// Merges per-worker partial lists into one list in worker-index order.
pub fn merge_in_order<T>(partials: Vec<Vec<T>>) -> (r: Vec<T>)
    ensures
        r@ == partials@.map_values(|v: Vec<T>| v@).flatten(),
{
    let ghost all = partials@.map_values(|v: Vec<T>| v@);
    let mut rest = partials;
    let mut out: Vec<T> = Vec::new();
    proof {
        assert(all.subrange(0, 0) =~= Seq::<Seq<T>>::empty());
        assert(out@ =~= all.subrange(0, 0).flatten());
    }
    while rest.len() > 0
        invariant
            rest@.len() <= all.len(),
            all.subrange(all.len() - rest@.len(), all.len() as int) =~= rest@.map_values(
                |v: Vec<T>| v@,
            ),
            out@ == all.subrange(0, all.len() - rest@.len()).flatten(),
        decreases rest@.len(),
    {
        let ghost done = all.len() - rest@.len();
        let ghost rest0 = rest@;
        let mut v = rest.remove(0);
        proof {
            assert(rest0.map_values(|v2: Vec<T>| v2@)[0] == rest0[0]@);
            assert(all.subrange(done, all.len() as int)[0] == all[done]);
            assert(all[done] == v@);
        }
        out.append(&mut v);
        proof {
            assert(all.subrange(0, done + 1) =~= all.subrange(0, done).push(all[done]));
            all.subrange(0, done).lemma_flatten_push(all[done]);
            assert(out@ == all.subrange(0, done + 1).flatten());
            assert(rest@ =~= rest0.subrange(1, rest0.len() as int));
            assert forall|k: int| 0 <= k < rest@.len() implies (#[trigger] rest@[k])@ == all[done
                + 1 + k] by {
                assert(rest@[k] == rest0[k + 1]);
                assert(rest0.map_values(|v2: Vec<T>| v2@)[k + 1] == rest0[k + 1]@);
                assert(all.subrange(done, all.len() as int)[k + 1] == all[done + 1 + k]);
            }
            assert(all.subrange(all.len() - rest@.len(), all.len() as int) =~= rest@.map_values(
                |v2: Vec<T>| v2@,
            ));
        }
    }
    proof {
        assert(all.subrange(0, all.len() as int) =~= all);
    }
    out
}

/// The index of the first error in `s` at or after `from`; `s.len()` when
/// every outcome from `from` on is a success.
pub open spec fn first_err_index<T>(s: Seq<Result<T, RuntimeError>>, from: int) -> int
    decreases s.len() - from
        when 0 <= from <= s.len()
{
    if from >= s.len() {
        s.len() as int
    } else if s[from] is Err {
        from
    } else {
        first_err_index(s, from + 1)
    }
}

/// Pins down `first_err_index` from pointwise facts: if everything before
/// `j` succeeded and `j` (when in range) failed, then `j` is the first
/// error index.
pub proof fn lemma_first_err_index<T>(s: Seq<Result<T, RuntimeError>>, from: int, j: int)
    requires
        0 <= from <= j <= s.len(),
        forall|k: int| from <= k < j ==> (#[trigger] s[k]) is Ok,
        j < s.len() ==> s[j] is Err,
    ensures
        first_err_index(s, from) == j,
    decreases j - from,
{
    if from < j {
        lemma_first_err_index(s, from + 1, j);
    }
}

/// Joins per-worker outcomes: the batch succeeds only when every worker
/// succeeded, keeping the results in worker-index order; otherwise the first
/// worker error is returned and all partial results are discarded.
pub fn join_worker_results<T>(results: Vec<Result<T, RuntimeError>>) -> (r: Result<
    Vec<T>,
    RuntimeError,
>)
    ensures
        ({
            let fe = first_err_index(results@, 0);
            match r {
                Ok(vs) => {
                    &&& fe == results@.len()
                    &&& vs@.len() == results@.len()
                    &&& forall|k: int|
                        0 <= k < results@.len() ==> #[trigger] results@[k] == Ok::<
                            T,
                            RuntimeError,
                        >(vs@[k])
                },
                Err(e) => {
                    &&& 0 <= fe < results@.len()
                    &&& results@[fe] == Err::<T, RuntimeError>(e)
                },
            }
        }),
{
    let ghost all = results@;
    let mut rest = results;
    let mut vs: Vec<T> = Vec::new();
    #[verifier::loop_isolation(false)]
    while rest.len() > 0
        invariant
            rest@.len() <= all.len(),
            all.subrange(all.len() - rest@.len(), all.len() as int) =~= rest@,
            vs@.len() == all.len() - rest@.len(),
            forall|k: int|
                0 <= k < vs@.len() ==> #[trigger] all[k] == Ok::<T, RuntimeError>(vs@[k]),
        decreases rest@.len(),
    {
        let ghost done = all.len() - rest@.len();
        let ghost rest0 = rest@;
        let item = rest.remove(0);
        proof {
            assert(all.subrange(done, all.len() as int)[0] == all[done]);
            assert(all[done] == item);
        }
        match item {
            Ok(v) => {
                vs.push(v);
            },
            Err(e) => {
                proof {
                    assert(all[done] == Err::<T, RuntimeError>(e));
                    assert(forall|k: int| 0 <= k < done ==> (#[trigger] all[k]) is Ok);
                    lemma_first_err_index(all, 0, done);
                }
                return Err(e);
            },
        }
        proof {
            assert(rest@ =~= rest0.subrange(1, rest0.len() as int));
            assert forall|k: int| 0 <= k < rest@.len() implies #[trigger] rest@[k]
                == all.subrange(done + 1, all.len() as int)[k] by {
                assert(rest@[k] == rest0[k + 1]);
                assert(all.subrange(done, all.len() as int)[k + 1] == all[done + 1 + k]);
            }
            assert(all.subrange(all.len() - rest@.len(), all.len() as int) =~= rest@);
        }
    }
    proof {
        assert(forall|k: int| 0 <= k < all.len() ==> (#[trigger] all[k]) is Ok);
        lemma_first_err_index(all, 0, all.len() as int);
    }
    Ok(vs)
}

} // verus!
