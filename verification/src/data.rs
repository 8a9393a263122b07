//! The data model: points, clusters, pairs, sampling intervals, and the
//! trace model that says what a whole run looks like as a function of the
//! sequence of drawn values.

use vstd::prelude::*;

verus! {

/// Bit pattern of the lower endpoint of the global coordinate range
/// (an IEEE 754 double holding -180 degrees).
pub const GLOBAL_LO_BITS: u64 = 0xC066_8000_0000_0000;

/// Bit pattern of the upper endpoint of the global coordinate range
/// (an IEEE 754 double holding 180 degrees).
pub const GLOBAL_HI_BITS: u64 = 0x4066_8000_0000_0000;

/// A point: two coordinates, each carried as the bit pattern of an
/// IEEE 754 double.  The library moves coordinates; it never computes
/// with them.
#[derive(Clone, Copy, Debug, PartialEq, Eq, Structural)]
pub struct Point {
    pub x: u64,
    pub y: u64,
}

/// A cluster: two corner points spanning an axis-aligned bounding
/// rectangle.  The corners are *not* sorted into min/max per axis; the
/// sampler normalizes each axis on its own when it draws.
#[derive(Clone, Copy, Debug, PartialEq, Eq, Structural)]
pub struct Cluster {
    pub p1: Point,
    pub p2: Point,
}

/// One dataset entry: the coordinates of two points, in emission order
/// (x0, y0, x1, y1), each as a double's bit pattern.
#[derive(Clone, Copy, Debug, PartialEq, Eq, Structural)]
pub struct Pair {
    pub x0: u64,
    pub y0: u64,
    pub x1: u64,
    pub y1: u64,
}

/// A sampling request: draw one value uniformly between the doubles whose
/// bit patterns are `a` and `b`.  The endpoints come in either order; the
/// sampler takes min and max itself.
#[derive(Clone, Copy, Debug, PartialEq, Eq, Structural)]
pub struct Interval {
    pub a: u64,
    pub b: u64,
}

/// The two endpoints a cluster spans on the x axis.
pub open spec fn span_x(c: Cluster) -> Interval {
    Interval { a: c.p1.x, b: c.p2.x }
}

/// The two endpoints a cluster spans on the y axis.
pub open spec fn span_y(c: Cluster) -> Interval {
    Interval { a: c.p1.y, b: c.p2.y }
}

/// The global sampling interval that cluster corners are drawn from.
pub open spec fn global_interval() -> Interval {
    Interval { a: GLOBAL_LO_BITS, b: GLOBAL_HI_BITS }
}

/// Number of draws one batch consumes when each batch holds `m` pairs:
/// four corner coordinates for the batch's cluster, then four
/// coordinates per pair.
pub open spec fn draws_per_batch(m: int) -> int {
    4 + 4 * m
}

/// Number of draws a whole run consumes: four batches.
pub open spec fn total_draws(m: int) -> int {
    4 * draws_per_batch(m)
}

/// Position in the draw trace of the first corner coordinate of batch
/// `b`'s cluster.
pub open spec fn cluster_start(m: int, b: int) -> int {
    b * draws_per_batch(m)
}

/// Position in the draw trace of the first coordinate of pair `i` of
/// batch `b`.
pub open spec fn pair_start(m: int, b: int, i: int) -> int {
    cluster_start(m, b) + 4 + 4 * i
}

/// The cluster of batch `b`, read off the draw trace `t`: the four
/// corner coordinates are drawn in the order p1.x, p1.y, p2.x, p2.y.
pub open spec fn cluster_at(t: Seq<u64>, m: int, b: int) -> Cluster {
    let s = cluster_start(m, b);
    Cluster {
        p1: Point { x: t[s], y: t[s + 1] },
        p2: Point { x: t[s + 2], y: t[s + 3] },
    }
}

/// Pair `i` of batch `b`, read off the draw trace `t`: the four
/// coordinates are drawn in the order x0, y0, x1, y1.
pub open spec fn pair_at(t: Seq<u64>, m: int, b: int, i: int) -> Pair {
    let s = pair_start(m, b, i);
    Pair { x0: t[s], y0: t[s + 1], x1: t[s + 2], y1: t[s + 3] }
}

/// The interval that draw number `k` of a run must be sampled from,
/// given the trace `t` of the values drawn so far (only positions below
/// `k` are read).  Within a batch the first four draws are the cluster's
/// corners, over the global range; after that, coordinates of the
/// batch's pairs alternate x, y, x, y over the spans of that cluster.
pub open spec fn request_at(t: Seq<u64>, m: int, k: int) -> Interval {
    let d = draws_per_batch(m);
    let b = k / d;
    let off = k % d;
    if off < 4 {
        global_interval()
    } else if (off - 4) % 4 == 0 || (off - 4) % 4 == 2 {
        span_x(cluster_at(t, m, b))
    } else {
        span_y(cluster_at(t, m, b))
    }
}

/// The whole dataset of a run, as a function of the full draw trace:
/// `4 * m` pairs, batch by batch, in generation order.
pub open spec fn dataset_at(t: Seq<u64>, m: int) -> Seq<Pair> {
    Seq::new((4 * m) as nat, |k: int| pair_at(t, m, k / m, k % m))
}

} // verus!
