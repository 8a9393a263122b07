//! Properties of the run as a whole, proved over the trace model.

use vstd::prelude::*;
use vstd::arithmetic::div_mod::{
    lemma_div_is_ordered, lemma_fundamental_div_mod, lemma_fundamental_div_mod_converse,
    lemma_mod_bound,
};
use vstd::arithmetic::mul::{
    lemma_mul_inequality, lemma_mul_is_commutative, lemma_mul_nonnegative,
};
use crate::data::{
    cluster_at, cluster_start, dataset_at, draws_per_batch, pair_at, pair_start, request_at,
    span_x, span_y, total_draws,
};

verus! {

/// Truncation: a run asked for `n` pairs emits exactly `4 * (n / 4)`
/// of them — never more than `n`, and fewer than four short of it.
pub proof fn lemma_truncated_count(n: int)
    requires
        0 <= n,
    ensures
        0 <= 4 * (n / 4),
        4 * (n / 4) <= n,
        n - 4 * (n / 4) < 4,
{
    lemma_fundamental_div_mod(n, 4);
    lemma_mod_bound(n, 4);
    lemma_div_is_ordered(0, n, 4);
}

/// Determinism of the draw order: the interval that draw `k` must be
/// sampled from depends only on the values drawn before `k`.  Together
/// with a deterministic sampler this pins the whole trace — and with it
/// the dataset — down to the seed.
pub proof fn lemma_request_depends_on_prefix(t1: Seq<u64>, t2: Seq<u64>, m: int, k: int)
    requires
        0 <= m,
        0 <= k,
        k <= t1.len(),
        k <= t2.len(),
        t1.subrange(0, k) == t2.subrange(0, k),
    ensures
        request_at(t1, m, k) == request_at(t2, m, k),
{
    let d: int = draws_per_batch(m);
    let b: int = k / d;
    let off: int = k % d;
    lemma_fundamental_div_mod(k, d);
    lemma_mod_bound(k, d);
    if off >= 4 {
        if b < 0 {
            lemma_mul_inequality(b, -1, d);
            lemma_mul_is_commutative(b, d);
            assert(false);
        }
        let s: int = cluster_start(m, b);
        lemma_mul_is_commutative(d, b);
        lemma_mul_nonnegative(b, d);
        assert(t1.subrange(0, k)[s] == t1[s]);
        assert(t1.subrange(0, k)[s + 1] == t1[s + 1]);
        assert(t1.subrange(0, k)[s + 2] == t1[s + 2]);
        assert(t1.subrange(0, k)[s + 3] == t1[s + 3]);
        assert(t2.subrange(0, k)[s] == t2[s]);
        assert(t2.subrange(0, k)[s + 1] == t2[s + 1]);
        assert(t2.subrange(0, k)[s + 2] == t2[s + 2]);
        assert(t2.subrange(0, k)[s + 3] == t2[s + 3]);
        assert(cluster_at(t1, m, b) == cluster_at(t2, m, b));
    }
}

/// Determinism of the output: the dataset reads nothing of the trace
/// beyond the `total_draws(m)` values a run consumes, so two runs whose
/// draws agree emit the same pairs.
pub proof fn lemma_dataset_depends_on_prefix(t1: Seq<u64>, t2: Seq<u64>, m: int)
    requires
        0 <= m,
        total_draws(m) <= t1.len(),
        total_draws(m) <= t2.len(),
        t1.subrange(0, total_draws(m)) == t2.subrange(0, total_draws(m)),
    ensures
        dataset_at(t1, m) == dataset_at(t2, m),
{
    let d: int = draws_per_batch(m);
    let total: int = total_draws(m);
    assert forall|k: int| 0 <= k < 4 * m implies dataset_at(t1, m)[k] == dataset_at(t2, m)[k] by {
        let p: int = k / m;
        let q: int = k % m;
        lemma_fundamental_div_mod(k, m);
        lemma_mod_bound(k, m);
        lemma_mul_is_commutative(m, p);
        if p < 0 {
            lemma_mul_inequality(p, -1, m);
            assert(false);
        }
        if p >= 4 {
            lemma_mul_inequality(4, p, m);
            assert(false);
        }
        let s: int = pair_start(m, p, q);
        lemma_mul_inequality(p, 3, d);
        lemma_mul_nonnegative(p, d);
        assert(t1.subrange(0, total)[s] == t1[s]);
        assert(t1.subrange(0, total)[s + 1] == t1[s + 1]);
        assert(t1.subrange(0, total)[s + 2] == t1[s + 2]);
        assert(t1.subrange(0, total)[s + 3] == t1[s + 3]);
        assert(t2.subrange(0, total)[s] == t2[s]);
        assert(t2.subrange(0, total)[s + 1] == t2[s + 1]);
        assert(t2.subrange(0, total)[s + 2] == t2[s + 2]);
        assert(t2.subrange(0, total)[s + 3] == t2[s + 3]);
        assert(pair_at(t1, m, p, q) == pair_at(t2, m, p, q));
    }
    assert(dataset_at(t1, m) =~= dataset_at(t2, m));
}

/// Cluster containment, on the library's side of the boundary: every
/// coordinate of every in-cluster point is requested over exactly the
/// span of its governing cluster — x coordinates over the cluster's x
/// span, y coordinates over its y span.  A sampler that returns a value
/// between the endpoints it is handed therefore keeps every generated
/// point inside its cluster's bounding box.
pub proof fn lemma_point_draw_spans_cluster(t: Seq<u64>, m: int, b: int, i: int, j: int)
    requires
        0 <= m,
        0 <= b < 4,
        0 <= i < m,
        0 <= j < 4,
    ensures
        ({
            let c = cluster_at(t, m, b);
            let r = request_at(t, m, pair_start(m, b, i) + j);
            r == if j == 0 || j == 2 {
                span_x(c)
            } else {
                span_y(c)
            }
        }),
{
    let d: int = draws_per_batch(m);
    let k: int = pair_start(m, b, i) + j;
    let off: int = 4 + 4 * i + j;
    assert(k == b * d + off);
    lemma_fundamental_div_mod_converse(k, d, b, off);
    lemma_fundamental_div_mod_converse(4 * i + j, 4, i, j);
}

} // verus!
