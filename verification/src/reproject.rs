//! Sharing the points of a cloud out among the workers that reproject them.

use vstd::prelude::*;

verus! {

/// The number of points that each worker reprojects: the points shared out
/// evenly among the workers, rounded up, where at least one worker is
/// counted.
pub fn reprojection_chunk_size(point_count: usize, available_parallelism: usize) -> (chunk_size:
    usize)
    ensures
        chunk_size == if available_parallelism < 1 {
            point_count as int
        } else {
            (point_count + available_parallelism - 1) / (available_parallelism as int)
        },
{
    let num_threads: usize = if available_parallelism < 1 {
        1
    } else {
        available_parallelism
    };
    let whole: usize = point_count / num_threads;
    let rest: usize = point_count % num_threads;
    proof {
        let n = num_threads as int;
        let p = point_count as int;
        vstd::arithmetic::div_mod::lemma_fundamental_div_mod(p, n);
        assert(n * (p / n) == (p / n) * n) by (nonlinear_arith);
        if rest == 0 {
            vstd::arithmetic::div_mod::lemma_fundamental_div_mod_converse(
                p + n - 1,
                n,
                p / n,
                n - 1,
            );
        } else {
            assert((p / n + 1) * n == (p / n) * n + n) by (nonlinear_arith);
            vstd::arithmetic::div_mod::lemma_fundamental_div_mod_converse(
                p + n - 1,
                n,
                p / n + 1,
                rest as int - 1,
            );
            assert(n >= 2);
            assert(whole * 2 <= p) by (nonlinear_arith)
                requires
                    whole * n <= p,
                    n >= 2,
                    whole >= 0,
            ;
        }
    }
    if rest == 0 {
        whole
    } else {
        whole + 1
    }
}

} // verus!
