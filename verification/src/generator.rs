//! The run itself, as a state machine.  A `Generator` decides which
//! interval every pseudo-random draw must be sampled from, consumes the
//! drawn values one by one, and assembles the dataset.  The caller owns
//! the entropy source: it asks for the next request, samples, and feeds
//! the value back, so the draw order is fixed and visible.  The assembled
//! dataset is proved equal to `dataset_at` of the fed trace — a function
//! of the drawn values alone.

use vstd::prelude::*;
use vstd::arithmetic::div_mod::{
    lemma_fundamental_div_mod, lemma_fundamental_div_mod_converse, lemma_mod_bound,
};
use vstd::arithmetic::mul::{
    lemma_mul_inequality, lemma_mul_is_commutative, lemma_mul_nonnegative,
};
use crate::data::{
    cluster_start, dataset_at, draws_per_batch, pair_at, pair_start, request_at,
    total_draws, Cluster, Interval, Pair, Point, GLOBAL_HI_BITS, GLOBAL_LO_BITS,
};

verus! {

/// Lower bound on the trace position any coordinate of pair `(p, q)`
/// occupies, relative to the position of batch `b`, pair `i`.
proof fn lemma_pair_reads_below(m: int, p: int, q: int, b: int, i: int)
    requires
        0 <= q < m,
        0 <= p,
        0 <= i,
        p < b || (p == b && q < i),
    ensures
        0 <= pair_start(m, p, q),
        p < b ==> pair_start(m, p, q) + 3 < b * draws_per_batch(m),
        p == b ==> pair_start(m, p, q) + 3 < b * draws_per_batch(m) + 4 + 4 * i,
{
    let d: int = draws_per_batch(m);
    if p < b {
        lemma_mul_inequality(p + 1, b, d);
        assert((p + 1) * d == p * d + d) by (nonlinear_arith);
    }
    lemma_mul_nonnegative(p, d);
}

/// The slot a pair of batch `p`, index `q` occupies in the emitted
/// vector lies below the slot of batch `b`, index `i`.
proof fn lemma_slot_below(m: int, p: int, q: int, b: int, i: int)
    requires
        0 <= q < m,
        0 <= p,
        0 <= i,
        p < b || (p == b && q < i),
    ensures
        0 <= p * m + q,
        p * m + q < b * m + i,
{
    if p < b {
        lemma_mul_inequality(p + 1, b, m);
        assert((p + 1) * m == p * m + m) by (nonlinear_arith);
    }
    lemma_mul_nonnegative(p, m);
}

/// Drives one run: four batches, each a freshly drawn cluster followed
/// by a fixed number of point pairs sampled within it.
pub struct Generator {
    /// Pairs per batch: the requested total divided by four, truncating.
    m: usize,
    /// Batches fully generated so far; 4 means the run is complete.
    b: usize,
    /// Corner coordinates of the current batch's cluster drawn so far.
    c: usize,
    /// Pairs completed within the current batch.
    i: usize,
    /// Coordinates of the current pair drawn so far.
    j: usize,
    /// The current batch's cluster; meaningful once `c == 4`.
    cluster: Cluster,
    /// The pair being assembled; its first `j` coordinates are meaningful.
    cur: Pair,
    /// The dataset assembled so far, in generation order.
    pairs: Vec<Pair>,
    /// Every value fed so far, in draw order.
    fed: Ghost<Seq<u64>>,
}

impl Generator {
    /// How many pairs each of the four batches holds.
    pub closed spec fn pairs_per_batch(&self) -> int {
        self.m as int
    }

    /// The values fed so far, in draw order.
    pub closed spec fn trace(&self) -> Seq<u64> {
        self.fed@
    }

    /// The pairs emitted so far, in generation order.
    pub closed spec fn emitted(&self) -> Seq<Pair> {
        self.pairs@
    }

    /// The run has consumed every draw it will ask for.
    pub open spec fn complete(&self) -> bool {
        self.trace().len() as int == total_draws(self.pairs_per_batch())
    }

    /// Internal consistency: the counters, the partially drawn cluster
    /// and pair, and the emitted pairs all agree with the fed trace.
    pub closed spec fn wf(&self) -> bool {
        let m = self.m as int;
        let d = draws_per_batch(m);
        let b = self.b as int;
        let c = self.c as int;
        let i = self.i as int;
        let j = self.j as int;
        &&& b <= 4
        &&& c <= 4
        &&& j <= 3
        &&& i <= m
        &&& (c < 4 ==> i == 0 && j == 0)
        &&& (b == 4 ==> c == 0 && i == 0 && j == 0)
        &&& (b < 4 && c == 4 ==> i < m)
        &&& self.fed@.len() as int == b * d + c + 4 * i + j
        &&& (c >= 1 ==> self.cluster.p1.x == self.fed@[cluster_start(m, b)])
        &&& (c >= 2 ==> self.cluster.p1.y == self.fed@[cluster_start(m, b) + 1])
        &&& (c >= 3 ==> self.cluster.p2.x == self.fed@[cluster_start(m, b) + 2])
        &&& (c >= 4 ==> self.cluster.p2.y == self.fed@[cluster_start(m, b) + 3])
        &&& (j >= 1 ==> self.cur.x0 == self.fed@[pair_start(m, b, i)])
        &&& (j >= 2 ==> self.cur.y0 == self.fed@[pair_start(m, b, i) + 1])
        &&& (j >= 3 ==> self.cur.x1 == self.fed@[pair_start(m, b, i) + 2])
        &&& self.pairs@.len() as int == b * m + i
        &&& (forall|p: int, q: int|
            0 <= p && 0 <= q && q < m && (p < b || (p == b && q < i))
                ==> self.pairs@[p * m + q] == #[trigger] pair_at(self.fed@, m, p, q))
    }

    /// How far the trace has come: short of the total while batches
    /// remain, exactly the total once all four are done.
    proof fn lemma_progress_bounds(&self)
        requires
            self.wf(),
        ensures
            self.b < 4 ==> (self.trace().len() as int) < total_draws(self.pairs_per_batch()),
            self.b == 4 ==> self.trace().len() as int == total_draws(self.pairs_per_batch()),
    {
        let m: int = self.m as int;
        let d: int = draws_per_batch(m);
        if self.b < 4 {
            lemma_mul_inequality(self.b as int, 3, d);
        }
    }

    /// Start a run that was asked for `n` pairs.  Four batches of
    /// `n / 4` pairs each will be generated; the remainder of `n` is
    /// dropped.
    pub fn new(n: usize) -> (g: Generator)
        ensures
            g.wf(),
            g.pairs_per_batch() == n as int / 4,
            g.trace() == Seq::<u64>::empty(),
            g.emitted() == Seq::<Pair>::empty(),
            !g.complete(),
    {
        let m: usize = n / 4;
        Generator {
            m,
            b: 0,
            c: 0,
            i: 0,
            j: 0,
            cluster: Cluster { p1: Point { x: 0, y: 0 }, p2: Point { x: 0, y: 0 } },
            cur: Pair { x0: 0, y0: 0, x1: 0, y1: 0 },
            pairs: Vec::new(),
            fed: Ghost(Seq::empty()),
        }
    }

    /// Whether the run still needs draws.
    pub fn is_complete(&self) -> (r: bool)
        requires
            self.wf(),
        ensures
            r == self.complete(),
    {
        proof {
            self.lemma_progress_bounds();
        }
        self.b == 4
    }

    /// The interval the next draw must be sampled from: the global
    /// range while the current batch's cluster corners are being drawn,
    /// afterwards the span of that cluster on the x or the y axis, in
    /// the fixed order x, y per point.
    pub fn next_request(&self) -> (r: Interval)
        requires
            self.wf(),
            !self.complete(),
        ensures
            r == request_at(self.trace(), self.pairs_per_batch(), self.trace().len() as int),
    {
        proof {
            self.lemma_progress_bounds();
            let m: int = self.m as int;
            let d: int = draws_per_batch(m);
            let k: int = self.fed@.len() as int;
            let off: int = self.c as int + 4 * self.i as int + self.j as int;
            assert(self.b < 4);
            lemma_fundamental_div_mod_converse(k, d, self.b as int, off);
            if self.c == 4 {
                lemma_fundamental_div_mod_converse(
                    4 * self.i as int + self.j as int,
                    4,
                    self.i as int,
                    self.j as int,
                );
            }
        }
        if self.c < 4 {
            Interval { a: GLOBAL_LO_BITS, b: GLOBAL_HI_BITS }
        } else if self.j == 0 || self.j == 2 {
            Interval { a: self.cluster.p1.x, b: self.cluster.p2.x }
        } else {
            Interval { a: self.cluster.p1.y, b: self.cluster.p2.y }
        }
    }

    /// Consume the value that came back for the current request and
    /// advance: corner coordinates build the batch's cluster, point
    /// coordinates build the current pair, a finished pair is appended
    /// to the dataset, a finished batch moves on to the next one.
    pub fn feed(&mut self, v: u64)
        requires
            old(self).wf(),
            !old(self).complete(),
        ensures
            final(self).wf(),
            final(self).pairs_per_batch() == old(self).pairs_per_batch(),
            final(self).trace() == old(self).trace().push(v),
    {
        proof {
            self.lemma_progress_bounds();
        }
        let ghost t0: Seq<u64> = self.fed@;
        let ghost m: int = self.m as int;
        let ghost d: int = draws_per_batch(m);
        let ghost b0: int = self.b as int;
        let ghost i0: int = self.i as int;
        proof {
            self.fed@ = self.fed@.push(v);
        }
        if self.c < 4 {
            if self.c == 0 {
                self.cluster.p1.x = v;
            } else if self.c == 1 {
                self.cluster.p1.y = v;
            } else if self.c == 2 {
                self.cluster.p2.x = v;
            } else {
                self.cluster.p2.y = v;
            }
            self.c = self.c + 1;
            if self.c == 4 && self.m == 0 {
                self.b = self.b + 1;
                self.c = 0;
            }
            proof {
                if self.b as int == b0 + 1 {
                    assert((b0 + 1) * d == b0 * d + d) by (nonlinear_arith);
                    assert((b0 + 1) * m == b0 * m + m) by (nonlinear_arith);
                }
                assert forall|p: int, q: int|
                    0 <= p && 0 <= q && q < m && (p < self.b as int
                        || (p == self.b as int && q < self.i as int)) implies self.pairs@[p * m
                    + q] == #[trigger] pair_at(self.fed@, m, p, q) by {
                    lemma_pair_reads_below(m, p, q, b0, i0);
                    assert(pair_at(self.fed@, m, p, q) == pair_at(t0, m, p, q));
                }
                assert(self.wf());
            }
        } else {
            if self.j == 0 {
                self.cur.x0 = v;
            } else if self.j == 1 {
                self.cur.y0 = v;
            } else if self.j == 2 {
                self.cur.x1 = v;
            } else {
                self.cur.y1 = v;
            }
            self.j = self.j + 1;
            if self.j == 4 {
                self.pairs.push(self.cur);
                self.j = 0;
                self.i = self.i + 1;
                if self.i == self.m {
                    self.b = self.b + 1;
                    self.c = 0;
                    self.i = 0;
                }
            }
            proof {
                if self.b as int == b0 + 1 {
                    assert((b0 + 1) * d == b0 * d + d) by (nonlinear_arith);
                    assert((b0 + 1) * m == b0 * m + m) by (nonlinear_arith);
                }
                assert forall|p: int, q: int|
                    0 <= p && 0 <= q && q < m && (p < self.b as int
                        || (p == self.b as int && q < self.i as int)) implies self.pairs@[p * m
                    + q] == #[trigger] pair_at(self.fed@, m, p, q) by {
                    if p < b0 || (p == b0 && q < i0) {
                        lemma_pair_reads_below(m, p, q, b0, i0);
                        lemma_slot_below(m, p, q, b0, i0);
                        assert(t0.subrange(0, t0.len() as int) == t0);
                        assert(pair_at(self.fed@, m, p, q) == pair_at(t0, m, p, q));
                        assert(self.pairs@[p * m + q] == old(self).pairs@[p * m + q]);
                    } else {
                        assert(p == b0 && q == i0);
                        assert(self.pairs@[b0 * m + i0] == pair_at(self.fed@, m, b0, i0));
                    }
                }
                assert(self.wf());
            }
        }
    }

    /// Hand the finished dataset over: exactly `4 * m` pairs, equal to
    /// what the fed trace dictates, in generation order.
    pub fn into_pairs(self) -> (r: Vec<Pair>)
        requires
            self.wf(),
            self.complete(),
        ensures
            r@ == dataset_at(self.trace(), self.pairs_per_batch()),
            r@.len() as int == 4 * self.pairs_per_batch(),
    {
        proof {
            self.lemma_progress_bounds();
            let m: int = self.m as int;
            assert(self.b == 4);
            if m > 0 {
                assert forall|k: int| 0 <= k < 4 * m implies self.pairs@[k] == pair_at(
                    self.fed@,
                    m,
                    k / m,
                    k % m,
                ) by {
                    let p: int = k / m;
                    let q: int = k % m;
                    lemma_fundamental_div_mod(k, m);
                    lemma_mod_bound(k, m);
                    lemma_mul_is_commutative(m, p);
                    if p < 0 {
                        lemma_mul_inequality(p, -1, m);
                        assert(false);
                    }
                    if p >= 4 {
                        lemma_mul_inequality(4, p, m);
                        assert(false);
                    }
                    assert(self.pairs@[p * m + q] == pair_at(self.fed@, m, p, q));
                }
            }
            assert(self.pairs@ =~= dataset_at(self.fed@, m));
        }
        self.pairs
    }
}

} // verus!
