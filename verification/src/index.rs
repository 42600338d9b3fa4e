//! The spatial index: a per-tick counting sort of particle indices by
//! bucket.
//!
//! `starts` has one entry per bucket plus a sentinel; bucket `b` owns
//! the slice `indices[starts[b] .. starts[b + 1]]`, which holds, in
//! ascending order, exactly the indices of the particles whose grid
//! cell hashes to bucket `b`. There are as many buckets as particles.

use vstd::prelude::*;
use crate::grid::{bucket_for_cell, bucket_of_s, cell_coord, cell_s, lemma_bucket_in_range};
use crate::particle::{Particle, ParticleG, views_of};

verus! {

/// The sequence `0, 1, ..., m - 1`.
pub open spec fn id_seq(m: int) -> Seq<int> {
    Seq::new(m as nat, |i: int| i)
}

/// Does particle `j` of `parts` fall in bucket `b`?
pub open spec fn bucket_pred(parts: Seq<ParticleG>, radius: int, b: int) -> spec_fn(int) -> bool {
    |j: int| bucket_of_s(parts[j].position, radius, parts.len() as int) == b
}

/// The indices among `0 .. m` of the particles in bucket `b`,
/// ascending.
pub open spec fn bucket_seq_upto(parts: Seq<ParticleG>, radius: int, b: int, m: int) -> Seq<int> {
    id_seq(m).filter(bucket_pred(parts, radius, b))
}

/// The indices of all particles in bucket `b`, ascending.
pub open spec fn bucket_seq(parts: Seq<ParticleG>, radius: int, b: int) -> Seq<int> {
    bucket_seq_upto(parts, radius, b, parts.len() as int)
}

/// Total size of buckets `0 .. m`, counting only particles `0 .. j`.
pub open spec fn sum_upto(parts: Seq<ParticleG>, radius: int, m: int, j: int) -> int
    decreases m,
{
    if m <= 0 {
        0
    } else {
        sum_upto(parts, radius, m - 1, j) + bucket_seq_upto(parts, radius, m - 1, j).len()
    }
}

/// A sequence of `usize` values, as mathematical integers.
pub open spec fn to_ints(s: Seq<usize>) -> Seq<int> {
    s.map_values(|u: usize| u as int)
}

proof fn lemma_filter_empty<A>(pred: spec_fn(A) -> bool)
    ensures
        Seq::<A>::empty().filter(pred) == Seq::<A>::empty(),
{
    reveal(Seq::filter);
}

proof fn lemma_filter_push<A>(s: Seq<A>, pred: spec_fn(A) -> bool, x: A)
    ensures
        s.push(x).filter(pred) == if pred(x) {
            s.filter(pred).push(x)
        } else {
            s.filter(pred)
        },
{
    reveal(Seq::filter);
    let t = s.push(x);
    assert(t.drop_last() =~= s);
    assert(t.last() == x);
}

pub proof fn lemma_upto_zero(parts: Seq<ParticleG>, radius: int, b: int)
    ensures
        bucket_seq_upto(parts, radius, b, 0) == Seq::<int>::empty(),
{
    assert(id_seq(0) =~= Seq::<int>::empty());
    lemma_filter_empty(bucket_pred(parts, radius, b));
}

/// Extending the counted prefix by particle `m` appends `m` to its
/// bucket's sequence and leaves every other bucket unchanged.
pub proof fn lemma_upto_step(parts: Seq<ParticleG>, radius: int, b: int, m: int)
    requires
        0 <= m,
    ensures
        bucket_seq_upto(parts, radius, b, m + 1) == if bucket_of_s(
            parts[m].position,
            radius,
            parts.len() as int,
        ) == b {
            bucket_seq_upto(parts, radius, b, m).push(m)
        } else {
            bucket_seq_upto(parts, radius, b, m)
        },
{
    assert(id_seq(m + 1) =~= id_seq(m).push(m));
    lemma_filter_push(id_seq(m), bucket_pred(parts, radius, b), m);
}

/// Every element of a bucket prefix sequence is a particle index below
/// `m`, in its bucket, and the sequence is strictly increasing.
pub proof fn lemma_upto_elems(parts: Seq<ParticleG>, radius: int, b: int, m: int)
    requires
        0 <= m,
    ensures
        forall|i: int|
            0 <= i < bucket_seq_upto(parts, radius, b, m).len() ==> {
                let e = #[trigger] bucket_seq_upto(parts, radius, b, m)[i];
                &&& 0 <= e < m
                &&& bucket_of_s(parts[e].position, radius, parts.len() as int) == b
            },
        forall|i1: int, i2: int|
            0 <= i1 < i2 < bucket_seq_upto(parts, radius, b, m).len() ==> #[trigger] bucket_seq_upto(
                parts,
                radius,
                b,
                m,
            )[i1] < #[trigger] bucket_seq_upto(parts, radius, b, m)[i2],
    decreases m,
{
    if m == 0 {
        lemma_upto_zero(parts, radius, b);
    } else {
        lemma_upto_elems(parts, radius, b, m - 1);
        lemma_upto_step(parts, radius, b, m - 1);
    }
}

/// Bucket prefix sequences only grow with the prefix.
proof fn lemma_upto_len_mono(parts: Seq<ParticleG>, radius: int, b: int, j1: int, j2: int)
    requires
        0 <= j1 <= j2,
    ensures
        bucket_seq_upto(parts, radius, b, j1).len() <= bucket_seq_upto(parts, radius, b, j2).len(),
    decreases j2 - j1,
{
    if j1 < j2 {
        lemma_upto_len_mono(parts, radius, b, j1, j2 - 1);
        lemma_upto_step(parts, radius, b, j2 - 1);
    }
}

/// Counting one more particle grows exactly the bucket totals that
/// include its bucket.
proof fn lemma_sum_step(parts: Seq<ParticleG>, radius: int, m: int, j: int)
    requires
        0 <= m,
        0 <= j,
    ensures
        sum_upto(parts, radius, m, j + 1) == sum_upto(parts, radius, m, j) + if 0 <= bucket_of_s(
            parts[j].position,
            radius,
            parts.len() as int,
        ) < m {
            1int
        } else {
            0int
        },
    decreases m,
{
    if m > 0 {
        lemma_sum_step(parts, radius, m - 1, j);
        lemma_upto_step(parts, radius, m - 1, j);
    }
}

/// With one bucket per particle, the bucket sizes over the first `j`
/// particles total exactly `j`.
proof fn lemma_sum_total(parts: Seq<ParticleG>, radius: int, j: int)
    requires
        0 <= j,
        parts.len() > 0,
    ensures
        sum_upto(parts, radius, parts.len() as int, j) == j,
    decreases j,
{
    let n = parts.len() as int;
    if j == 0 {
        lemma_sum_zero(parts, radius, n);
    } else {
        lemma_sum_total(parts, radius, j - 1);
        lemma_sum_step(parts, radius, n, j - 1);
        lemma_bucket_in_range(cell_s(parts[j - 1].position, radius), n);
    }
}

proof fn lemma_sum_zero(parts: Seq<ParticleG>, radius: int, m: int)
    ensures
        sum_upto(parts, radius, m, 0) == 0,
    decreases m,
{
    if m > 0 {
        lemma_sum_zero(parts, radius, m - 1);
        lemma_upto_zero(parts, radius, m - 1);
    }
}

/// Bucket totals grow with the number of buckets counted.
proof fn lemma_sum_mono(parts: Seq<ParticleG>, radius: int, m1: int, m2: int, j: int)
    requires
        0 <= m1 <= m2,
    ensures
        sum_upto(parts, radius, m1, j) <= sum_upto(parts, radius, m2, j),
    decreases m2 - m1,
{
    if m1 < m2 {
        lemma_sum_mono(parts, radius, m1, m2 - 1, j);
    }
}

proof fn lemma_to_ints_update(s: Seq<usize>, k: int, v: usize)
    requires
        0 <= k < s.len(),
    ensures
        to_ints(s.update(k, v)) == to_ints(s).update(k, v as int),
{
    assert(to_ints(s.update(k, v)) =~= to_ints(s).update(k, v as int));
}

/// The per-tick spatial index: bucket offsets and the particle-index
/// array they partition.
pub struct SpatialIndex {
    pub starts: Vec<usize>,
    pub indices: Vec<usize>,
}

impl SpatialIndex {
    /// The index is exactly the counting sort of `parts` by bucket:
    /// `starts[b]` is the total size of buckets `0 .. b`, and bucket
    /// `b`'s slice of `indices` lists its particles in ascending
    /// order.
    pub open spec fn wf(self, parts: Seq<ParticleG>, radius: int) -> bool {
        let n = parts.len() as int;
        &&& self.starts@.len() == n + 1
        &&& self.indices@.len() == n
        &&& self.starts@[n] == n
        &&& forall|b: int|
            0 <= b <= n ==> (#[trigger] self.starts@[b]) as int == sum_upto(parts, radius, b, n)
        &&& forall|b: int|
            0 <= b < n ==> to_ints(self.indices@).subrange(
                self.starts@[b] as int,
                self.starts@[b + 1] as int,
            ) == #[trigger] bucket_seq(parts, radius, b)
    }
}

/// Build the spatial index over the given particles by a three-phase
/// counting sort: count bucket sizes, prefix-sum them into offsets,
/// then scatter each particle's index into its bucket's slice. With
/// no particles the index is empty and nothing else is done.
pub fn build_index(particles: &Vec<Particle>, radius: i64) -> (idx: SpatialIndex)
    requires
        radius > 0,
    ensures
        idx.wf(views_of(particles@), radius as int),
{
    let n: usize = particles.len();
    let ghost parts = views_of(particles@);
    let ghost r = radius as int;
    proof {
        assert(parts.len() == n as int);
    }
    if n == 0 {
        let mut starts: Vec<usize> = Vec::new();
        starts.push(0);
        let indices: Vec<usize> = Vec::new();
        return SpatialIndex { starts, indices };
    }
    // Count phase: counts[b] = number of particles in bucket b.
    let mut counts: Vec<usize> = Vec::new();
    let mut i: usize = 0;
    while i < n
        invariant
            counts@.len() == i as int,
            i <= n,
            forall|t: int| 0 <= t < i as int ==> (#[trigger] counts@[t]) == 0usize,
        decreases n - i,
    {
        counts.push(0);
        i = i + 1;
    }
    proof {
        assert forall|b: int| 0 <= b < n as int implies (#[trigger] counts@[b]) as int
            == bucket_seq_upto(parts, r, b, 0).len() by {
            lemma_upto_zero(parts, r, b);
        }
    }
    let mut j: usize = 0;
    while j < n
        invariant
            counts@.len() == n as int,
            j <= n,
            n == particles@.len(),
            n > 0,
            parts == views_of(particles@),
            r == radius as int,
            radius > 0,
            forall|b: int|
                0 <= b < n as int ==> (#[trigger] counts@[b]) as int == bucket_seq_upto(
                    parts,
                    r,
                    b,
                    j as int,
                ).len(),
        decreases n - j,
    {
        let cell = cell_coord(particles[j].position, radius);
        let b: usize = bucket_for_cell(cell, n);
        proof {
            assert(parts[j as int] == particles@[j as int]@);
            assert(bucket_of_s(parts[j as int].position, r, n as int) == b as int);
            id_seq(j as int).lemma_filter_len(bucket_pred(parts, r, b as int));
        }
        let c: usize = counts[b];
        counts.set(b, c + 1);
        proof {
            assert forall|t: int| 0 <= t < n as int implies (#[trigger] counts@[t]) as int
                == bucket_seq_upto(parts, r, t, j as int + 1).len() by {
                lemma_upto_step(parts, r, t, j as int);
            }
        }
        j = j + 1;
    }
    // Prefix-sum phase: starts[b] = total size of buckets 0 .. b,
    // with the particle count appended as the sentinel end offset.
    let mut starts: Vec<usize> = Vec::new();
    starts.push(0);
    let mut b: usize = 0;
    while b < n
        invariant
            starts@.len() == b as int + 1,
            b <= n,
            counts@.len() == n as int,
            n == particles@.len(),
            n > 0,
            parts == views_of(particles@),
            r == radius as int,
            forall|t: int|
                0 <= t < n as int ==> (#[trigger] counts@[t]) as int == bucket_seq(
                    parts,
                    r,
                    t,
                ).len(),
            forall|t: int|
                0 <= t <= b as int ==> (#[trigger] starts@[t]) as int == sum_upto(
                    parts,
                    r,
                    t,
                    n as int,
                ),
        decreases n - b,
    {
        let s: usize = starts[b];
        let c: usize = counts[b];
        proof {
            lemma_sum_mono(parts, r, b as int + 1, n as int, n as int);
            lemma_sum_total(parts, r, n as int);
            assert(sum_upto(parts, r, b as int + 1, n as int) == s as int + c as int);
        }
        starts.push(s + c);
        b = b + 1;
    }
    proof {
        lemma_sum_total(parts, r, n as int);
        assert(starts@[n as int] as int == n as int);
    }
    // Scatter phase: each particle's index is written to the next
    // free slot of its bucket's slice, in ascending particle order.
    let mut cursors: Vec<usize> = Vec::new();
    let mut t: usize = 0;
    while t < n
        invariant
            cursors@.len() == t as int,
            t <= n,
            starts@.len() == n as int + 1,
            forall|u: int| 0 <= u < t as int ==> #[trigger] cursors@[u] == starts@[u],
        decreases n - t,
    {
        cursors.push(starts[t]);
        t = t + 1;
    }
    let mut indices: Vec<usize> = Vec::new();
    let mut t2: usize = 0;
    while t2 < n
        invariant
            indices@.len() == t2 as int,
            t2 <= n,
        decreases n - t2,
    {
        indices.push(0);
        t2 = t2 + 1;
    }
    proof {
        assert forall|bb: int| 0 <= bb < n as int implies (#[trigger] cursors@[bb]) as int
            == starts@[bb] as int + bucket_seq_upto(parts, r, bb, 0).len() by {
            lemma_upto_zero(parts, r, bb);
        }
        assert forall|bb: int| 0 <= bb < n as int implies to_ints(indices@).subrange(
            starts@[bb] as int,
            cursors@[bb] as int,
        ) == #[trigger] bucket_seq_upto(parts, r, bb, 0) by {
            lemma_upto_zero(parts, r, bb);
            lemma_sum_mono(parts, r, bb, n as int, n as int);
            lemma_sum_total(parts, r, n as int);
            assert(cursors@[bb] == starts@[bb]);
            assert(0 <= starts@[bb] as int <= n as int);
            assert(to_ints(indices@).subrange(starts@[bb] as int, cursors@[bb] as int)
                =~= Seq::<int>::empty());
        }
    }
    let mut j2: usize = 0;
    while j2 < n
        invariant
            cursors@.len() == n as int,
            indices@.len() == n as int,
            starts@.len() == n as int + 1,
            j2 <= n,
            n == particles@.len(),
            n > 0,
            parts == views_of(particles@),
            r == radius as int,
            radius > 0,
            starts@[n as int] == n,
            forall|t: int|
                0 <= t <= n as int ==> (#[trigger] starts@[t]) as int == sum_upto(
                    parts,
                    r,
                    t,
                    n as int,
                ),
            forall|bb: int|
                0 <= bb < n as int ==> (#[trigger] cursors@[bb]) as int == starts@[bb] as int
                    + bucket_seq_upto(parts, r, bb, j2 as int).len(),
            forall|bb: int|
                0 <= bb < n as int ==> to_ints(indices@).subrange(
                    starts@[bb] as int,
                    cursors@[bb] as int,
                ) == #[trigger] bucket_seq_upto(parts, r, bb, j2 as int),
        decreases n - j2,
    {
        let cell = cell_coord(particles[j2].position, radius);
        let b2: usize = bucket_for_cell(cell, n);
        proof {
            assert(parts[j2 as int] == particles@[j2 as int]@);
            assert(bucket_of_s(parts[j2 as int].position, r, n as int) == b2 as int);
            lemma_upto_step(parts, r, b2 as int, j2 as int);
            lemma_upto_len_mono(parts, r, b2 as int, j2 as int + 1, n as int);
            assert(sum_upto(parts, r, b2 as int + 1, n as int) == sum_upto(parts, r, b2 as int, n as int)
                + bucket_seq(parts, r, b2 as int).len());
            lemma_sum_mono(parts, r, b2 as int + 1, n as int, n as int);
            lemma_sum_total(parts, r, n as int);
            assert(cursors@[b2 as int] < starts@[b2 as int + 1]);
        }
        let k: usize = cursors[b2];
        let ghost old_indices = indices@;
        let ghost old_cursors = cursors@;
        indices.set(k, j2);
        cursors.set(b2, k + 1);
        proof {
            lemma_to_ints_update(old_indices, k as int, j2);
            assert forall|bb: int| 0 <= bb < n as int implies (#[trigger] cursors@[bb]) as int
                == starts@[bb] as int + bucket_seq_upto(parts, r, bb, j2 as int + 1).len() by {
                lemma_upto_step(parts, r, bb, j2 as int);
            }
            assert forall|bb: int| 0 <= bb < n as int implies to_ints(indices@).subrange(
                starts@[bb] as int,
                cursors@[bb] as int,
            ) == #[trigger] bucket_seq_upto(parts, r, bb, j2 as int + 1) by {
                lemma_upto_step(parts, r, bb, j2 as int);
                lemma_upto_len_mono(parts, r, bb, j2 as int, n as int);
                if bb == b2 as int {
                    assert(to_ints(indices@).subrange(starts@[bb] as int, cursors@[bb] as int)
                        =~= to_ints(old_indices).subrange(
                        starts@[bb] as int,
                        old_cursors[bb] as int,
                    ).push(j2 as int));
                } else {
                    // The written slot k lies in bucket b2's slice,
                    // which is disjoint from bucket bb's slice.
                    assert(sum_upto(parts, r, bb + 1, n as int) == sum_upto(parts, r, bb, n as int)
                        + bucket_seq(parts, r, bb).len());
                    assert(old_cursors[bb] as int <= starts@[bb + 1] as int);
                    lemma_sum_mono(parts, r, bb + 1, n as int, n as int);
                    lemma_sum_total(parts, r, n as int);
                    if bb < b2 as int {
                        lemma_sum_mono(parts, r, bb + 1, b2 as int, n as int);
                        assert(old_cursors[bb] as int <= starts@[b2 as int] as int <= k as int);
                    } else {
                        lemma_sum_mono(parts, r, b2 as int + 1, bb, n as int);
                        assert((k + 1) as int <= starts@[b2 as int + 1] as int <= starts@[bb] as int);
                    }
                    assert(to_ints(indices@).subrange(starts@[bb] as int, cursors@[bb] as int)
                        =~= to_ints(old_indices).subrange(
                        starts@[bb] as int,
                        old_cursors[bb] as int,
                    ));
                }
            }
        }
        j2 = j2 + 1;
    }
    let idx = SpatialIndex { starts, indices };
    proof {
        assert forall|bb: int| 0 <= bb < n as int implies to_ints(idx.indices@).subrange(
            idx.starts@[bb] as int,
            idx.starts@[bb + 1] as int,
        ) == #[trigger] bucket_seq(parts, r, bb) by {
            assert(sum_upto(parts, r, bb + 1, n as int) == sum_upto(parts, r, bb, n as int)
                + bucket_seq(parts, r, bb).len());
            assert(cursors@[bb] as int == idx.starts@[bb + 1] as int);
        }
    }
    idx
}

/// Every slot of `indices` below `starts[m]` belongs to some bucket
/// `b < m`.
proof fn lemma_slot_bucket(idx: SpatialIndex, parts: Seq<ParticleG>, radius: int, k: int, m: int)
    requires
        idx.wf(parts, radius),
        0 <= k,
        0 <= m <= parts.len(),
        k < idx.starts@[m] as int,
    ensures
        exists|b: int|
            0 <= b < m && (#[trigger] idx.starts@[b]) as int <= k < idx.starts@[b + 1] as int,
    decreases m,
{
    if m == 0 {
        assert(idx.starts@[0] as int == sum_upto(parts, radius, 0, parts.len() as int));
    } else {
        if k >= idx.starts@[m - 1] as int {
            assert(idx.starts@[m - 1] as int <= k < idx.starts@[m] as int);
        } else {
            lemma_slot_bucket(idx, parts, radius, k, m - 1);
        }
    }
}

/// What a reader of one bucket's slice may rely on: the slice sits
/// inside `indices`, and slot `starts[b] + i` holds the `i`-th
/// element of the bucket's sequence, a valid particle index.
pub proof fn lemma_wf_bounds(idx: SpatialIndex, parts: Seq<ParticleG>, radius: int, b: int)
    requires
        idx.wf(parts, radius),
        parts.len() > 0,
        0 <= b < parts.len(),
    ensures
        0 <= idx.starts@[b] as int,
        idx.starts@[b] as int + bucket_seq(parts, radius, b).len() == idx.starts@[b + 1] as int,
        idx.starts@[b + 1] as int <= parts.len(),
        forall|i: int|
            0 <= i < bucket_seq(parts, radius, b).len() ==> {
                let e = #[trigger] bucket_seq(parts, radius, b)[i];
                &&& 0 <= e < parts.len()
                &&& to_ints(idx.indices@)[idx.starts@[b] as int + i] == e
            },
{
    let n = parts.len() as int;
    assert(sum_upto(parts, radius, b + 1, n) == sum_upto(parts, radius, b, n) + bucket_seq(
        parts,
        radius,
        b,
    ).len());
    lemma_sum_mono(parts, radius, 0, b, n);
    lemma_sum_mono(parts, radius, b + 1, n, n);
    lemma_sum_total(parts, radius, n);
    lemma_upto_elems(parts, radius, b, n);
    let slice = to_ints(idx.indices@).subrange(idx.starts@[b] as int, idx.starts@[b + 1] as int);
    assert(slice == bucket_seq(parts, radius, b));
    assert forall|i: int| 0 <= i < bucket_seq(parts, radius, b).len() implies {
        let e = #[trigger] bucket_seq(parts, radius, b)[i];
        &&& 0 <= e < parts.len()
        &&& to_ints(idx.indices@)[idx.starts@[b] as int + i] == e
    } by {
        assert(slice[i] == to_ints(idx.indices@)[idx.starts@[b] as int + i]);
    }
}

/// The bucket slices of a well-formed index partition the particle
/// indices `0 .. N`: every slot holds a particle index of that slot's
/// bucket, every particle index appears in its own bucket's slice,
/// and no slot repeats an index.
#[verifier::rlimit(60)]
pub proof fn lemma_index_partition(idx: SpatialIndex, parts: Seq<ParticleG>, radius: int)
    requires
        idx.wf(parts, radius),
        parts.len() > 0,
    ensures
        forall|b: int, k: int|
            #![trigger idx.starts@[b], idx.indices@[k]]
            0 <= b < parts.len() && idx.starts@[b] as int <= k < idx.starts@[b + 1] as int ==> {
                &&& 0 <= (idx.indices@[k] as int) < parts.len()
                &&& bucket_of_s(
                    parts[idx.indices@[k] as int].position,
                    radius,
                    parts.len() as int,
                ) == b
            },
        forall|j: int|
            0 <= j < parts.len() ==> exists|k: int|
                {
                    let b = bucket_of_s((#[trigger] parts[j]).position, radius, parts.len() as int);
                    &&& idx.starts@[b] as int <= k < idx.starts@[b + 1] as int
                    &&& (#[trigger] idx.indices@[k]) as int == j
                },
        forall|k1: int, k2: int|
            0 <= k1 < k2 < parts.len() ==> (#[trigger] idx.indices@[k1]) as int
                != (#[trigger] idx.indices@[k2]) as int,
{
    let n = parts.len() as int;
    assert forall|b: int, k: int|
        #![trigger idx.starts@[b], idx.indices@[k]]
        0 <= b < n && idx.starts@[b] as int <= k < idx.starts@[b + 1] as int implies {
        &&& 0 <= (idx.indices@[k] as int) < n
        &&& bucket_of_s(parts[idx.indices@[k] as int].position, radius, n) == b
    } by {
        lemma_upto_elems(parts, radius, b, n);
        assert(sum_upto(parts, radius, b + 1, n) == sum_upto(parts, radius, b, n) + bucket_seq(
            parts,
            radius,
            b,
        ).len());
        lemma_sum_mono(parts, radius, b + 1, n, n);
        lemma_sum_total(parts, radius, n);
        let slice = to_ints(idx.indices@).subrange(idx.starts@[b] as int, idx.starts@[b + 1] as int);
        assert(slice == bucket_seq(parts, radius, b));
        assert(slice[k - idx.starts@[b] as int] == to_ints(idx.indices@)[k]);
        assert(to_ints(idx.indices@)[k] == idx.indices@[k] as int);
    }
    assert forall|j: int| 0 <= j < n implies exists|k: int|
        {
            let b = bucket_of_s((#[trigger] parts[j]).position, radius, n);
            &&& idx.starts@[b] as int <= k < idx.starts@[b + 1] as int
            &&& (#[trigger] idx.indices@[k]) as int == j
        } by {
        let b = bucket_of_s(parts[j].position, radius, n);
        lemma_bucket_in_range(cell_s(parts[j].position, radius), n);
        assert(sum_upto(parts, radius, b + 1, n) == sum_upto(parts, radius, b, n) + bucket_seq(
            parts,
            radius,
            b,
        ).len());
        lemma_sum_mono(parts, radius, b + 1, n, n);
        lemma_sum_total(parts, radius, n);
        let pred = bucket_pred(parts, radius, b);
        assert(id_seq(n)[j] == j && pred(j));
        id_seq(n).lemma_filter_contains(pred, j);
        assert(bucket_seq(parts, radius, b).contains(j));
        let i = choose|i: int|
            0 <= i < bucket_seq(parts, radius, b).len() && bucket_seq(parts, radius, b)[i] == j;
        let k = idx.starts@[b] as int + i;
        let slice = to_ints(idx.indices@).subrange(idx.starts@[b] as int, idx.starts@[b + 1] as int);
        assert(slice == bucket_seq(parts, radius, b));
        assert(slice[i] == to_ints(idx.indices@)[k]);
        assert((idx.indices@[k]) as int == j);
    }
    assert forall|k1: int, k2: int| 0 <= k1 < k2 < n implies (#[trigger] idx.indices@[k1]) as int
        != (#[trigger] idx.indices@[k2]) as int by {
        lemma_sum_total(parts, radius, n);
        assert(idx.starts@[n] as int == n);
        lemma_slot_bucket(idx, parts, radius, k1, n);
        lemma_slot_bucket(idx, parts, radius, k2, n);
        let b1 = choose|b: int|
            0 <= b < n && (#[trigger] idx.starts@[b]) as int <= k1 < idx.starts@[b + 1] as int;
        let b2 = choose|b: int|
            0 <= b < n && (#[trigger] idx.starts@[b]) as int <= k2 < idx.starts@[b + 1] as int;
        lemma_upto_elems(parts, radius, b1, n);
        lemma_upto_elems(parts, radius, b2, n);
        assert(sum_upto(parts, radius, b1 + 1, n) == sum_upto(parts, radius, b1, n) + bucket_seq(
            parts,
            radius,
            b1,
        ).len());
        assert(sum_upto(parts, radius, b2 + 1, n) == sum_upto(parts, radius, b2, n) + bucket_seq(
            parts,
            radius,
            b2,
        ).len());
        lemma_sum_mono(parts, radius, b1 + 1, n, n);
        lemma_sum_mono(parts, radius, b2 + 1, n, n);
        let slice1 = to_ints(idx.indices@).subrange(
            idx.starts@[b1] as int,
            idx.starts@[b1 + 1] as int,
        );
        let slice2 = to_ints(idx.indices@).subrange(
            idx.starts@[b2] as int,
            idx.starts@[b2 + 1] as int,
        );
        assert(slice1 == bucket_seq(parts, radius, b1));
        assert(slice2 == bucket_seq(parts, radius, b2));
        assert(slice1[k1 - idx.starts@[b1] as int] == to_ints(idx.indices@)[k1]);
        assert(slice2[k2 - idx.starts@[b2] as int] == to_ints(idx.indices@)[k2]);
        if b1 == b2 {
            assert(to_ints(idx.indices@)[k1] < to_ints(idx.indices@)[k2]);
        } else {
            assert(bucket_of_s(parts[to_ints(idx.indices@)[k1]].position, radius, n) == b1);
            assert(bucket_of_s(parts[to_ints(idx.indices@)[k2]].position, radius, n) == b2);
        }
    }
}

} // verus!
