use vstd::prelude::*;
use crate::error::MlError;
use crate::fixed::{tdiv, div_trunc};
use vstd::arithmetic::div_mod::{lemma_div_is_ordered, lemma_div_multiples_vanish};
use crate::vector::{Vector, sq_dist};

verus! {

/// The entries of each vector.
pub open spec fn views(vs: Seq<Vector>) -> Seq<Seq<i64>> {
    Seq::new(vs.len(), |i: int| vs[i]@)
}

/// Squared distance, limited to the range of `u128`.
pub open spec fn sat_sq(a: Seq<i64>, b: Seq<i64>) -> nat {
    if sq_dist(a, b) > u128::MAX {
        u128::MAX as nat
    } else {
        sq_dist(a, b)
    }
}

/// Index of the centroid among the first `j` nearest to `p`; ties go to the lowest index.
pub open spec fn nearest(p: Seq<i64>, cs: Seq<Seq<i64>>, j: nat) -> nat
    decreases j,
{
    if j <= 1 {
        0
    } else {
        let b = nearest(p, cs, (j - 1) as nat);
        if sat_sq(p, cs[j - 1]) < sat_sq(p, cs[b as int]) {
            (j - 1) as nat
        } else {
            b
        }
    }
}

/// The centroid each point is assigned to.
pub open spec fn assign(data: Seq<Seq<i64>>, cs: Seq<Seq<i64>>) -> Seq<nat> {
    Seq::new(data.len(), |i: int| nearest(data[i], cs, cs.len()))
}

/// How many of the first `k` points are assigned to cluster `c`.
pub open spec fn count_upto(asg: Seq<nat>, c: nat, k: nat) -> nat
    decreases k,
{
    if k == 0 {
        0
    } else {
        count_upto(asg, c, (k - 1) as nat) + if asg[k - 1] == c { 1nat } else { 0nat }
    }
}

/// Sum of coordinate `t` over the first `k` points assigned to cluster `c`.
pub open spec fn sum_upto(data: Seq<Seq<i64>>, asg: Seq<nat>, c: nat, t: int, k: nat) -> int
    decreases k,
{
    if k == 0 {
        0
    } else {
        sum_upto(data, asg, c, t, (k - 1) as nat) + if asg[k - 1] == c { data[k - 1][t] as int } else { 0int }
    }
}

/// The new position of centroid `c`: the mean of its points, rounded toward
/// zero, or its old position when no point is assigned to it.
pub open spec fn new_centroid(data: Seq<Seq<i64>>, cs: Seq<Seq<i64>>, asg: Seq<nat>, c: int) -> Seq<i64> {
    let n = count_upto(asg, c as nat, data.len());
    if n == 0 {
        cs[c]
    } else {
        Seq::new(cs[c].len(), |t: int| tdiv(sum_upto(data, asg, c as nat, t, data.len()), n as int) as i64)
    }
}

/// One assignment and update round.
pub open spec fn lloyd_step(data: Seq<Seq<i64>>, cs: Seq<Seq<i64>>) -> Seq<Seq<i64>> {
    Seq::new(cs.len(), |c: int| new_centroid(data, cs, assign(data, cs), c))
}

/// No centroid moved farther than `threshold`.
pub open spec fn settled(old_cs: Seq<Seq<i64>>, new_cs: Seq<Seq<i64>>, threshold: u64) -> bool {
    forall|c: int| 0 <= c < old_cs.len() ==> #[trigger] sq_dist(old_cs[c], new_cs[c]) <= threshold * threshold
}

/// The centroids after rounds from `cs`, stopping after the first round in
/// which no centroid moved farther than `threshold`, or after `fuel` rounds.
pub open spec fn run(data: Seq<Seq<i64>>, cs: Seq<Seq<i64>>, threshold: u64, fuel: nat) -> Seq<Seq<i64>>
    decreases fuel,
{
    if fuel == 0 {
        cs
    } else {
        let next = lloyd_step(data, cs);
        if settled(cs, next, threshold) {
            next
        } else {
            run(data, next, threshold, (fuel - 1) as nat)
        }
    }
}

/// Every vector of `vs` has `d` entries.
pub open spec fn all_len(vs: Seq<Seq<i64>>, d: nat) -> bool {
    forall|i: int| 0 <= i < vs.len() ==> (#[trigger] vs[i]).len() == d
}

/// A round keeps the number of centroids and the length of each.
pub proof fn lemma_step_shape(data: Seq<Seq<i64>>, cs: Seq<Seq<i64>>, d: nat)
    requires
        all_len(cs, d),
    ensures
        lloyd_step(data, cs).len() == cs.len(),
        all_len(lloyd_step(data, cs), d),
{
    let next = lloyd_step(data, cs);
    assert forall|i: int| 0 <= i < next.len() implies (#[trigger] next[i]).len() == d by {
        assert(cs[i].len() == d);
    }
}

/// A cluster to which no point is assigned keeps its centroid through a round.
pub proof fn lemma_empty_cluster_kept(data: Seq<Seq<i64>>, cs: Seq<Seq<i64>>, c: int)
    requires
        0 <= c < cs.len(),
        count_upto(assign(data, cs), c as nat, data.len()) == 0,
    ensures
        lloyd_step(data, cs)[c] == cs[c],
{
}

/// Each coordinate sum lies between the count times the least and greatest `i64`.
proof fn lemma_sum_bounds(data: Seq<Seq<i64>>, asg: Seq<nat>, c: nat, t: int, k: nat)
    requires
        k <= data.len(),
        k <= asg.len(),
        0 <= t,
        forall|i: int| 0 <= i < data.len() ==> t < (#[trigger] data[i]).len(),
    ensures
        count_upto(asg, c, k) * (i64::MIN as int) <= sum_upto(data, asg, c, t, k)
            <= count_upto(asg, c, k) * (i64::MAX as int),
        count_upto(asg, c, k) <= k,
    decreases k,
{
    if k > 0 {
        lemma_sum_bounds(data, asg, c, t, (k - 1) as nat);
        assert(t < data[k - 1].len());
        assert(count_upto(asg, c, k) * (i64::MIN as int) <= sum_upto(data, asg, c, t, k)
            <= count_upto(asg, c, k) * (i64::MAX as int)) by (nonlinear_arith)
            requires
                count_upto(asg, c, k) == count_upto(asg, c, (k - 1) as nat) + if asg[k - 1] == c { 1nat } else { 0nat },
                sum_upto(data, asg, c, t, k) == sum_upto(data, asg, c, t, (k - 1) as nat)
                    + if asg[k - 1] == c { data[k - 1][t] as int } else { 0int },
                count_upto(asg, c, (k - 1) as nat) * (i64::MIN as int) <= sum_upto(data, asg, c, t, (k - 1) as nat)
                    <= count_upto(asg, c, (k - 1) as nat) * (i64::MAX as int),
                i64::MIN <= data[k - 1][t] <= i64::MAX;
    }
}

/// Squared distance limited to `u128`.
fn sat_sq_distance(a: &Vector, b: &Vector) -> (r: u128)
    requires
        a@.len() == b@.len(),
    ensures
        r == sat_sq(a@, b@),
{
    match a.sq_distance(b) {
        Ok(s) => s,
        Err(_) => u128::MAX,
    }
}

/// Index of the centroid nearest to `p`.
fn nearest_index(p: &Vector, cs: &Vec<Vector>) -> (r: usize)
    requires
        cs@.len() > 0,
        forall|c: int| 0 <= c < cs@.len() ==> (#[trigger] cs@[c])@.len() == p@.len(),
    ensures
        r == nearest(p@, views(cs@), cs@.len()),
        r < cs@.len(),
{
    let ghost vs = views(cs@);
    let mut best: usize = 0;
    let mut best_d: u128 = sat_sq_distance(p, &cs[0]);
    let mut j: usize = 1;
    while j < cs.len()
        invariant
            1 <= j <= cs@.len(),
            vs == views(cs@),
            forall|c: int| 0 <= c < cs@.len() ==> (#[trigger] cs@[c])@.len() == p@.len(),
            best == nearest(p@, vs, j as nat),
            best < j,
            best_d == sat_sq(p@, vs[best as int]),
        decreases cs@.len() - j,
    {
        let d = sat_sq_distance(p, &cs[j]);
        if d < best_d {
            best = j;
            best_d = d;
        }
        j = j + 1;
    }
    best
}

/// The entries of a `Vec<usize>` as natural numbers.
pub open spec fn nats(v: Seq<usize>) -> Seq<nat> {
    Seq::new(v.len(), |i: int| v[i] as nat)
}

/// The nearest centroid of every point.
fn assign_all(data: &[Vector], cs: &Vec<Vector>) -> (r: Vec<usize>)
    requires
        cs@.len() > 0,
        forall|c: int| 0 <= c < cs@.len() ==> (#[trigger] cs@[c])@.len() == cs@[0]@.len(),
        forall|i: int| 0 <= i < data@.len() ==> (#[trigger] data@[i])@.len() == cs@[0]@.len(),
    ensures
        r@.len() == data@.len(),
        nats(r@) == assign(views(data@), views(cs@)),
        forall|i: int| 0 <= i < r@.len() ==> #[trigger] r@[i] < cs@.len(),
{
    let mut r: Vec<usize> = Vec::with_capacity(data.len());
    let mut i: usize = 0;
    while i < data.len()
        invariant
            i <= data@.len(),
            cs@.len() > 0,
            forall|c: int| 0 <= c < cs@.len() ==> (#[trigger] cs@[c])@.len() == cs@[0]@.len(),
            forall|k: int| 0 <= k < data@.len() ==> (#[trigger] data@[k])@.len() == cs@[0]@.len(),
            r@.len() == i,
            forall|k: int| 0 <= k < i ==> #[trigger] r@[k] == nearest(data@[k]@, views(cs@), cs@.len()),
            forall|k: int| 0 <= k < i ==> #[trigger] r@[k] < cs@.len(),
        decreases data@.len() - i,
    {
        let b = nearest_index(&data[i], cs);
        r.push(b);
        i = i + 1;
    }
    assert(nats(r@) =~= assign(views(data@), views(cs@)));
    r
}

/// How many points are assigned to cluster `c`.
fn count_cluster(asg: &Vec<usize>, c: usize) -> (r: usize)
    ensures
        r == count_upto(nats(asg@), c as nat, asg@.len()),
{
    let mut n: usize = 0;
    let mut i: usize = 0;
    while i < asg.len()
        invariant
            i <= asg@.len(),
            n == count_upto(nats(asg@), c as nat, i as nat),
            n <= i,
        decreases asg@.len() - i,
    {
        if asg[i] == c {
            n = n + 1;
        }
        i = i + 1;
    }
    n
}

/// Sum of coordinate `t` over the points assigned to cluster `c`.
fn coord_sum(data: &[Vector], asg: &Vec<usize>, c: usize, t: usize) -> (r: i128)
    requires
        asg@.len() == data@.len(),
        forall|i: int| 0 <= i < data@.len() ==> t < (#[trigger] data@[i])@.len(),
    ensures
        r == sum_upto(views(data@), nats(asg@), c as nat, t as int, data@.len()),
{
    let ghost dv = views(data@);
    let ghost av = nats(asg@);
    let mut acc: i128 = 0;
    let mut i: usize = 0;
    while i < data.len()
        invariant
            i <= data@.len(),
            asg@.len() == data@.len(),
            dv == views(data@),
            av == nats(asg@),
            forall|k: int| 0 <= k < data@.len() ==> t < (#[trigger] data@[k])@.len(),
            acc == sum_upto(dv, av, c as nat, t as int, i as nat),
        decreases data@.len() - i,
    {
        proof {
            assert forall|k: int| 0 <= k < dv.len() implies t < (#[trigger] dv[k]).len() by {
                assert(t < data@[k]@.len());
            }
            lemma_sum_bounds(dv, av, c as nat, t as int, (i + 1) as nat);
            let m = count_upto(av, c as nat, (i + 1) as nat);
            let s = sum_upto(dv, av, c as nat, t as int, (i + 1) as nat);
            assert(i128::MIN <= s <= i128::MAX) by (nonlinear_arith)
                requires
                    m * (i64::MIN as int) <= s <= m * (i64::MAX as int),
                    m <= i + 1,
                    i < usize::MAX;
        }
        if asg[i] == c {
            acc = acc + data[i].at(t) as i128;
        }
        i = i + 1;
    }
    acc
}

/// The mean `sum / n`, rounded toward zero.
fn mean_of(sum: i128, n: usize) -> (r: i64)
    requires
        n > 0,
        n * (i64::MIN as int) <= sum <= n * (i64::MAX as int),
    ensures
        r == tdiv(sum as int, n as int),
{
    proof {
        if sum >= 0 {
            lemma_div_is_ordered(sum as int, n * (i64::MAX as int), n as int);
            lemma_div_multiples_vanish(i64::MAX as int, n as int);
            assert((sum as int) / (n as int) >= 0) by (nonlinear_arith)
                requires sum >= 0, n > 0;
        } else {
            lemma_div_is_ordered(-(sum as int), n * 0x8000_0000_0000_0000int, n as int);
            lemma_div_multiples_vanish(0x8000_0000_0000_0000int, n as int);
            assert(n * 0x8000_0000_0000_0000int == -(n * (i64::MIN as int)));
        }
    }
    div_trunc(sum, n as u64) as i64
}

/// One assignment and update round on the centroids `cs`.
fn step(data: &[Vector], cs: &Vec<Vector>) -> (r: Vec<Vector>)
    requires
        cs@.len() > 0,
        forall|c: int| 0 <= c < cs@.len() ==> (#[trigger] cs@[c])@.len() == cs@[0]@.len(),
        forall|i: int| 0 <= i < data@.len() ==> (#[trigger] data@[i])@.len() == cs@[0]@.len(),
    ensures
        views(r@) == lloyd_step(views(data@), views(cs@)),
{
    let ghost dv = views(data@);
    let ghost cv = views(cs@);
    let d = cs[0].len();
    let asg = assign_all(data, cs);
    let ghost av = nats(asg@);
    let mut out: Vec<Vector> = Vec::with_capacity(cs.len());
    let mut c: usize = 0;
    while c < cs.len()
        invariant
            c <= cs@.len(),
            d == cs@[0]@.len(),
            forall|k: int| 0 <= k < cs@.len() ==> (#[trigger] cs@[k])@.len() == d,
            forall|i: int| 0 <= i < data@.len() ==> (#[trigger] data@[i])@.len() == d,
            asg@.len() == data@.len(),
            dv == views(data@),
            cv == views(cs@),
            av == nats(asg@),
            av == assign(dv, cv),
            out@.len() == c,
            forall|k: int| 0 <= k < c ==> (#[trigger] out@[k])@ == new_centroid(dv, cv, av, k),
        decreases cs@.len() - c,
    {
        let n = count_cluster(&asg, c);
        if n == 0 {
            out.push(Vector::new_from_vec(cs[c].as_vec()));
        } else {
            let mut m: Vec<i64> = Vec::with_capacity(d);
            let mut t: usize = 0;
            while t < d
                invariant
                    t <= d,
                    c < cs@.len(),
                    n > 0,
                    n == count_upto(av, c as nat, data@.len()),
                    d == cs@[c as int]@.len(),
                    forall|i: int| 0 <= i < data@.len() ==> (#[trigger] data@[i])@.len() == d,
                    asg@.len() == data@.len(),
                    dv == views(data@),
                    av == nats(asg@),
                    m@.len() == t,
                    forall|k: int| 0 <= k < t ==> #[trigger] m@[k]
                        == tdiv(sum_upto(dv, av, c as nat, k, data@.len()), n as int) as i64,
                decreases d - t,
            {
                let sum = coord_sum(data, &asg, c, t);
                proof {
                    assert forall|k: int| 0 <= k < dv.len() implies t < (#[trigger] dv[k]).len() by {
                        assert(data@[k]@.len() == d);
                    }
                    lemma_sum_bounds(dv, av, c as nat, t as int, data@.len());
                }
                m.push(mean_of(sum, n));
                t = t + 1;
            }
            let ghost nc = new_centroid(dv, cv, av, c as int);
            assert(m@ =~= nc);
            out.push(Vector::new_from_vec(m));
        }
        c = c + 1;
    }
    assert(views(out@) =~= lloyd_step(dv, cv));
    out
}

/// Whether no centroid moved farther than `threshold` between `a` and `b`.
fn is_settled(a: &Vec<Vector>, b: &Vec<Vector>, threshold: u64) -> (r: bool)
    requires
        a@.len() == b@.len(),
        forall|c: int| 0 <= c < a@.len() ==> (#[trigger] a@[c])@.len() == b@[c]@.len(),
    ensures
        r == settled(views(a@), views(b@), threshold),
{
    assert(threshold * threshold <= u128::MAX) by (nonlinear_arith)
        requires threshold <= u64::MAX;
    let limit: u128 = threshold as u128 * threshold as u128;
    let mut c: usize = 0;
    while c < a.len()
        invariant
            c <= a@.len(),
            a@.len() == b@.len(),
            forall|k: int| 0 <= k < a@.len() ==> (#[trigger] a@[k])@.len() == b@[k]@.len(),
            limit == threshold * threshold,
            forall|k: int| 0 <= k < c ==> #[trigger] sq_dist(a@[k]@, b@[k]@) <= threshold * threshold,
        decreases a@.len() - c,
    {
        match a[c].sq_distance(&b[c]) {
            Ok(s) => {
                if s > limit {
                    assert(sq_dist(views(a@)[c as int], views(b@)[c as int]) > threshold * threshold);
                    return false;
                }
            },
            Err(_) => {
                assert(sq_dist(views(a@)[c as int], views(b@)[c as int]) > threshold * threshold);
                return false;
            },
        }
        c = c + 1;
    }
    assert forall|k: int| 0 <= k < views(a@).len() implies #[trigger] sq_dist(views(a@)[k], views(b@)[k])
        <= threshold * threshold by {
        assert(sq_dist(a@[k]@, b@[k]@) <= threshold * threshold);
    }
    true
}

/// k-means clustering of integer points by repeated assignment and averaging.
#[derive(Clone, Debug)]
pub struct KMeansClustering {
    dimensions: usize,
    clusters: usize,
    cluster_centroids: Vec<Vector>,
}

impl KMeansClustering {
    /// The length of every point.
    pub closed spec fn dims(&self) -> nat {
        self.dimensions as nat
    }

    /// The number of clusters, `k`.
    pub closed spec fn k(&self) -> nat {
        self.clusters as nat
    }

    /// The current centroids; empty before the first fit.
    pub closed spec fn centroids(&self) -> Seq<Seq<i64>> {
        views(self.cluster_centroids@)
    }

    /// There is at least one cluster, and each centroid has `dims` entries.
    pub open spec fn wf(&self) -> bool {
        &&& self.k() > 0
        &&& all_len(self.centroids(), self.dims())
    }

    /// An unfitted model for `clusters` clusters of points of `dimensions` entries.
    pub fn new(dimensions: usize, clusters: usize) -> (r: Self)
        requires
            clusters > 0,
        ensures
            r.wf(),
            r.dims() == dimensions,
            r.k() == clusters,
            r.centroids().len() == 0,
    {
        let r = KMeansClustering { dimensions, clusters, cluster_centroids: Vec::new() };
        assert(r.centroids() =~= Seq::<Seq<i64>>::empty());
        r
    }

    /// Places the `k` centroids on `data`: they start on the first `k`
    /// points, and rounds of assignment and averaging follow until no
    /// centroid moves farther than `threshold` in a round, or until
    /// `max_iterations` rounds have run. A cluster left without points keeps
    /// its centroid. Fails, changing nothing, when there are fewer points than
    /// clusters or a point does not have `dims` entries.
    pub fn fit(&mut self, data: &[Vector], threshold: u64, max_iterations: u64) -> (r: Result<(), MlError>)
        requires
            old(self).wf(),
        ensures
            final(self).wf(),
            final(self).dims() == old(self).dims(),
            final(self).k() == old(self).k(),
            data@.len() < old(self).k() ==> r == Err::<(), MlError>(MlError::InsufficientData)
                && final(self).centroids() == old(self).centroids(),
            data@.len() >= old(self).k() && (exists|i: int| 0 <= i < data@.len() && (#[trigger] data@[i])@.len() != old(self).dims())
                ==> r == Err::<(), MlError>(MlError::DimensionMismatch)
                && final(self).centroids() == old(self).centroids(),
            data@.len() >= old(self).k() && all_len(views(data@), old(self).dims()) ==> r is Ok
                && final(self).centroids() == run(views(data@), views(data@).take(old(self).k() as int),
                    threshold, max_iterations as nat),
    {
        if data.len() < self.clusters {
            return Err(MlError::InsufficientData);
        }
        let mut i: usize = 0;
        while i < data.len()
            invariant
                i <= data@.len(),
                self.clusters <= data@.len(),
                self.wf(),
                self.centroids() == old(self).centroids(),
                self.dims() == old(self).dims(),
                self.k() == old(self).k(),
                forall|k: int| 0 <= k < i ==> (#[trigger] data@[k])@.len() == self.dimensions,
            decreases data@.len() - i,
        {
            if data[i].len() != self.dimensions {
                assert(views(data@)[i as int].len() != self.dims());
                return Err(MlError::DimensionMismatch);
            }
            i = i + 1;
        }
        let ghost dv = views(data@);
        assert(all_len(dv, self.dims()));
        let mut cs: Vec<Vector> = Vec::with_capacity(self.clusters);
        let mut c: usize = 0;
        while c < self.clusters
            invariant
                c <= self.clusters <= data@.len(),
                dv == views(data@),
                cs@.len() == c,
                forall|k: int| 0 <= k < c ==> (#[trigger] cs@[k])@ == data@[k]@,
            decreases self.clusters - c,
        {
            cs.push(Vector::new_from_vec(data[c].as_vec()));
            c = c + 1;
        }
        let ghost c0 = dv.take(self.clusters as int);
        assert(views(cs@) =~= c0);
        let ghost target = run(dv, c0, threshold, max_iterations as nat);
        let mut fuel: u64 = max_iterations;
        let mut done: bool = false;
        while fuel > 0
            invariant
                dv == views(data@),
                all_len(dv, self.dims()),
                self.clusters > 0,
                cs@.len() == self.clusters,
                all_len(views(cs@), self.dims()),
                done ==> fuel == 0 && views(cs@) == target,
                !done ==> target == run(dv, views(cs@), threshold, fuel as nat),
            decreases fuel,
        {
            proof {
                assert forall|k: int| 0 <= k < cs@.len() implies (#[trigger] cs@[k])@.len() == cs@[0]@.len() by {
                    assert(views(cs@)[k].len() == self.dims());
                    assert(views(cs@)[0].len() == self.dims());
                }
                assert forall|k: int| 0 <= k < data@.len() implies (#[trigger] data@[k])@.len() == cs@[0]@.len() by {
                    assert(dv[k].len() == self.dims());
                    assert(views(cs@)[0].len() == self.dims());
                }
            }
            let next = step(data, &cs);
            proof {
                lemma_step_shape(dv, views(cs@), self.dims());
                assert(next@.len() == cs@.len()) by {
                    assert(views(next@).len() == next@.len());
                }
                assert forall|k: int| 0 <= k < cs@.len() implies (#[trigger] cs@[k])@.len() == next@[k]@.len() by {
                    assert(views(cs@)[k].len() == self.dims());
                    assert(views(next@)[k].len() == self.dims());
                }
            }
            let stop = is_settled(&cs, &next, threshold);
            cs = next;
            if stop {
                done = true;
                fuel = 0;
            } else {
                fuel = fuel - 1;
            }
        }
        self.cluster_centroids = cs;
        Ok(())
    }

    /// The current centroids.
    pub fn get_centroids(&self) -> (r: Vec<Vec<i64>>)
        ensures
            r@.len() == self.centroids().len(),
            forall|c: int| 0 <= c < r@.len() ==> #[trigger] r@[c]@ == self.centroids()[c],
    {
        let mut r: Vec<Vec<i64>> = Vec::with_capacity(self.cluster_centroids.len());
        let mut c: usize = 0;
        while c < self.cluster_centroids.len()
            invariant
                c <= self.cluster_centroids@.len(),
                r@.len() == c,
                forall|k: int| 0 <= k < c ==> #[trigger] r@[k]@ == self.centroids()[k],
            decreases self.cluster_centroids@.len() - c,
        {
            r.push(self.cluster_centroids[c].as_vec());
            c = c + 1;
        }
        r
    }

    /// The index of the centroid nearest to each point of `data`, the lowest
    /// index among equally near ones.
    pub fn get_assignments(&self, data: &[Vector]) -> (r: Result<Vec<usize>, MlError>)
        requires
            self.wf(),
        ensures
            self.centroids().len() == 0 ==> r == Err::<Vec<usize>, MlError>(MlError::EmptyInput),
            self.centroids().len() > 0 && !all_len(views(data@), self.dims())
                ==> r == Err::<Vec<usize>, MlError>(MlError::DimensionMismatch),
            self.centroids().len() > 0 && all_len(views(data@), self.dims()) ==> r is Ok
                && nats(r->Ok_0@) == assign(views(data@), self.centroids()),
    {
        if self.cluster_centroids.len() == 0 {
            return Err(MlError::EmptyInput);
        }
        let mut i: usize = 0;
        while i < data.len()
            invariant
                i <= data@.len(),
                self.cluster_centroids@.len() > 0,
                forall|k: int| 0 <= k < i ==> (#[trigger] data@[k])@.len() == self.dimensions,
            decreases data@.len() - i,
        {
            if data[i].len() != self.dimensions {
                assert(views(data@)[i as int].len() != self.dims());
                return Err(MlError::DimensionMismatch);
            }
            i = i + 1;
        }
        proof {
            assert(all_len(views(data@), self.dims()));
            assert forall|k: int| 0 <= k < self.cluster_centroids@.len()
                implies (#[trigger] self.cluster_centroids@[k])@.len() == self.cluster_centroids@[0]@.len() by {
                assert(self.centroids()[k].len() == self.dims());
                assert(self.centroids()[0].len() == self.dims());
            }
            assert(self.centroids()[0].len() == self.dims());
        }
        Ok(assign_all(data, &self.cluster_centroids))
    }
}

} // verus!
