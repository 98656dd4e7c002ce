use vstd::prelude::*;
use crate::error::MlError;

verus! {

/// True when `x` is a value of `i64`.
pub open spec fn fits_i64(x: int) -> bool {
    i64::MIN <= x <= i64::MAX
}

/// Elementwise sum of two sequences of equal length.
pub open spec fn seq_add(a: Seq<i64>, b: Seq<i64>) -> Seq<int> {
    Seq::new(a.len(), |i: int| a[i] + b[i])
}

/// Elementwise product of two sequences of equal length.
pub open spec fn seq_mul(a: Seq<i64>, b: Seq<i64>) -> Seq<int> {
    Seq::new(a.len(), |i: int| a[i] * b[i])
}

/// True when every entry of `s` is a value of `i64`.
pub open spec fn all_fit(s: Seq<int>) -> bool {
    forall|i: int| 0 <= i < s.len() ==> #[trigger] fits_i64(s[i])
}

/// Sum of the squared differences of the first `k` entries.
pub open spec fn sq_dist_upto(a: Seq<i64>, b: Seq<i64>, k: nat) -> nat
    decreases k,
{
    if k == 0 {
        0
    } else {
        let d = a[k - 1] - b[k - 1];
        sq_dist_upto(a, b, (k - 1) as nat) + (d * d) as nat
    }
}

/// Squared Euclidean distance of two sequences of equal length.
pub open spec fn sq_dist(a: Seq<i64>, b: Seq<i64>) -> nat {
    sq_dist_upto(a, b, a.len())
}

/// `r` is the integer square root of `s`: the largest `r` with `r * r <= s`.
pub open spec fn is_isqrt(r: int, s: int) -> bool {
    0 <= r && r * r <= s < (r + 1) * (r + 1)
}

/// Integer square root of a `u128`, by bisection.
pub fn isqrt(s: u128) -> (r: u64)
    ensures
        is_isqrt(r as int, s as int),
{
    let mut lo: u128 = 0;
    let mut hi: u128 = 0x1_0000_0000_0000_0000;
    assert(hi * hi > u128::MAX) by (nonlinear_arith)
        requires hi == 0x1_0000_0000_0000_0000u128;
    while hi - lo > 1
        invariant
            lo < hi <= 0x1_0000_0000_0000_0000u128,
            lo * lo <= s,
            s < hi * hi,
        decreases hi - lo,
    {
        let mid: u128 = lo + (hi - lo) / 2;
        assert(mid * mid < 0x1_0000_0000_0000_0000_0000_0000_0000_0000int) by (nonlinear_arith)
            requires mid < 0x1_0000_0000_0000_0000u128;
        if mid * mid <= s {
            lo = mid;
        } else {
            hi = mid;
        }
    }
    assert(hi == lo + 1);
    lo as u64
}

/// A vector of integers whose length is fixed once made.
#[derive(Clone, Debug)]
pub struct Vector {
    data: Vec<i64>,
}

impl View for Vector {
    type V = Seq<i64>;

    closed spec fn view(&self) -> Seq<i64> {
        self.data@
    }
}

impl Vector {
    /// A vector holding `values` in order.
    pub fn new_from_vec(values: Vec<i64>) -> (r: Vector)
        ensures
            r@ == values@,
    {
        Vector { data: values }
    }

    /// A vector of `n` entries, each `fill`.
    pub fn new_from_dims(n: usize, fill: i64) -> (r: Vector)
        ensures
            r@ == Seq::new(n as nat, |i: int| fill),
    {
        let mut data: Vec<i64> = Vec::with_capacity(n);
        let mut i: usize = 0;
        while i < n
            invariant
                i <= n,
                data@ == Seq::new(i as nat, |k: int| fill),
            decreases n - i,
        {
            data.push(fill);
            i = i + 1;
            assert(data@ =~= Seq::new(i as nat, |k: int| fill));
        }
        Vector { data }
    }

    /// The number of entries.
    pub fn len(&self) -> (r: usize)
        ensures
            r == self@.len(),
    {
        self.data.len()
    }

    /// The entry at `i`.
    pub fn get(&self, i: usize) -> (r: Result<i64, MlError>)
        ensures
            i < self@.len() ==> r == Ok::<i64, MlError>(self@[i as int]),
            i >= self@.len() ==> r == Err::<i64, MlError>(MlError::IndexOutOfRange),
    {
        if i < self.data.len() {
            Ok(self.data[i])
        } else {
            Err(MlError::IndexOutOfRange)
        }
    }

    /// The entry at `i`, which must lie inside the vector.
    pub fn at(&self, i: usize) -> (r: i64)
        requires
            i < self@.len(),
        ensures
            r == self@[i as int],
    {
        self.data[i]
    }

    /// Replaces the entry at `i` by `value`.
    pub fn set(&mut self, i: usize, value: i64) -> (r: Result<(), MlError>)
        ensures
            i < old(self)@.len() ==> r is Ok && final(self)@ == old(self)@.update(i as int, value),
            i >= old(self)@.len() ==> r == Err::<(), MlError>(MlError::IndexOutOfRange)
                && final(self)@ == old(self)@,
    {
        if i < self.data.len() {
            self.data.set(i, value);
            Ok(())
        } else {
            Err(MlError::IndexOutOfRange)
        }
    }

    /// The entries as a plain `Vec`.
    pub fn as_vec(&self) -> (r: Vec<i64>)
        ensures
            r@ == self@,
    {
        self.data.clone()
    }

    /// Elementwise sum.
    pub fn add(&self, other: &Vector) -> (r: Result<Vector, MlError>)
        ensures
            self@.len() != other@.len() ==> r == Err::<Vector, MlError>(MlError::DimensionMismatch),
            self@.len() == other@.len() && !all_fit(seq_add(self@, other@))
                ==> r == Err::<Vector, MlError>(MlError::Overflow),
            self@.len() == other@.len() && all_fit(seq_add(self@, other@)) ==> r is Ok
                && r->Ok_0@.len() == self@.len()
                && forall|i: int| 0 <= i < self@.len() ==> #[trigger] r->Ok_0@[i] == self@[i] + other@[i],
    {
        if self.data.len() != other.data.len() {
            return Err(MlError::DimensionMismatch);
        }
        let n = self.data.len();
        let mut out: Vec<i64> = Vec::with_capacity(n);
        let mut i: usize = 0;
        while i < n
            invariant
                i <= n,
                n == self@.len(),
                n == other@.len(),
                out@.len() == i,
                forall|k: int| 0 <= k < i ==> #[trigger] out@[k] == self@[k] + other@[k],
            decreases n - i,
        {
            match self.data[i].checked_add(other.data[i]) {
                Some(v) => out.push(v),
                None => {
                    assert(!fits_i64(seq_add(self@, other@)[i as int]));
                    return Err(MlError::Overflow);
                },
            }
            i = i + 1;
        }
        assert forall|k: int| 0 <= k < n implies #[trigger] fits_i64(seq_add(self@, other@)[k]) by {
            assert(out@[k] == self@[k] + other@[k]);
        }
        Ok(Vector { data: out })
    }

    /// Elementwise product.
    pub fn mul(&self, other: &Vector) -> (r: Result<Vector, MlError>)
        ensures
            self@.len() != other@.len() ==> r == Err::<Vector, MlError>(MlError::DimensionMismatch),
            self@.len() == other@.len() && !all_fit(seq_mul(self@, other@))
                ==> r == Err::<Vector, MlError>(MlError::Overflow),
            self@.len() == other@.len() && all_fit(seq_mul(self@, other@)) ==> r is Ok
                && r->Ok_0@.len() == self@.len()
                && forall|i: int| 0 <= i < self@.len() ==> #[trigger] r->Ok_0@[i] == self@[i] * other@[i],
    {
        if self.data.len() != other.data.len() {
            return Err(MlError::DimensionMismatch);
        }
        let n = self.data.len();
        let mut out: Vec<i64> = Vec::with_capacity(n);
        let mut i: usize = 0;
        while i < n
            invariant
                i <= n,
                n == self@.len(),
                n == other@.len(),
                out@.len() == i,
                forall|k: int| 0 <= k < i ==> #[trigger] out@[k] == self@[k] * other@[k],
            decreases n - i,
        {
            match self.data[i].checked_mul(other.data[i]) {
                Some(v) => out.push(v),
                None => {
                    assert(!fits_i64(seq_mul(self@, other@)[i as int]));
                    return Err(MlError::Overflow);
                },
            }
            i = i + 1;
        }
        assert forall|k: int| 0 <= k < n implies #[trigger] fits_i64(seq_mul(self@, other@)[k]) by {
            assert(out@[k] == self@[k] * other@[k]);
        }
        Ok(Vector { data: out })
    }

    /// Squared Euclidean distance; `Overflow` where it exceeds `u128`.
    pub fn sq_distance(&self, other: &Vector) -> (r: Result<u128, MlError>)
        ensures
            self@.len() != other@.len() ==> r == Err::<u128, MlError>(MlError::DimensionMismatch),
            self@.len() == other@.len() && sq_dist(self@, other@) > u128::MAX
                ==> r == Err::<u128, MlError>(MlError::Overflow),
            self@.len() == other@.len() && sq_dist(self@, other@) <= u128::MAX
                ==> r == Ok::<u128, MlError>(sq_dist(self@, other@) as u128),
    {
        if self.data.len() != other.data.len() {
            return Err(MlError::DimensionMismatch);
        }
        let n = self.data.len();
        let mut acc: u128 = 0;
        let mut i: usize = 0;
        while i < n
            invariant
                i <= n,
                n == self@.len(),
                n == other@.len(),
                acc == sq_dist_upto(self@, other@, i as nat),
            decreases n - i,
        {
            let d: i128 = self.data[i] as i128 - other.data[i] as i128;
            let m: u128 = if d >= 0 { d as u128 } else { (-d) as u128 };
            assert(m * m == d * d) by (nonlinear_arith)
                requires m == d || m == -d;
            if m >= 0x1_0000_0000_0000_0000u128 {
                assert(m * m > u128::MAX) by (nonlinear_arith)
                    requires m >= 0x1_0000_0000_0000_0000u128;
                proof { lemma_sq_dist_mono(self@, other@, (i + 1) as nat, n as nat); }
                return Err(MlError::Overflow);
            }
            assert(m * m <= u128::MAX) by (nonlinear_arith)
                requires m < 0x1_0000_0000_0000_0000u128;
            let sq: u128 = m * m;
            match acc.checked_add(sq) {
                Some(v) => acc = v,
                None => {
                    proof { lemma_sq_dist_mono(self@, other@, (i + 1) as nat, n as nat); }
                    return Err(MlError::Overflow);
                },
            }
            i = i + 1;
        }
        Ok(acc)
    }

    /// Euclidean distance, rounded down to an integer.
    pub fn distance(&self, other: &Vector) -> (r: Result<u64, MlError>)
        ensures
            self@.len() != other@.len() ==> r == Err::<u64, MlError>(MlError::DimensionMismatch),
            self@.len() == other@.len() && sq_dist(self@, other@) > u128::MAX
                ==> r == Err::<u64, MlError>(MlError::Overflow),
            self@.len() == other@.len() && sq_dist(self@, other@) <= u128::MAX ==> r is Ok
                && is_isqrt(r->Ok_0 as int, sq_dist(self@, other@) as int),
    {
        match self.sq_distance(other) {
            Ok(s) => Ok(isqrt(s)),
            Err(e) => Err(e),
        }
    }
}

/// The squared distance over a prefix never exceeds that over a longer one.
pub proof fn lemma_sq_dist_mono(a: Seq<i64>, b: Seq<i64>, j: nat, k: nat)
    requires
        j <= k,
    ensures
        sq_dist_upto(a, b, j) <= sq_dist_upto(a, b, k),
    decreases k,
{
    if j < k {
        lemma_sq_dist_mono(a, b, j, (k - 1) as nat);
    }
}

/// Sum over the first `k` entries of `(a[i] - b[i]) * (b[i] - c[i])`.
pub open spec fn cross_upto(a: Seq<i64>, b: Seq<i64>, c: Seq<i64>, k: nat) -> int
    decreases k,
{
    if k == 0 {
        0
    } else {
        cross_upto(a, b, c, (k - 1) as nat) + (a[k - 1] - b[k - 1]) * (b[k - 1] - c[k - 1])
    }
}

/// The squared distance from `a` to `c` expands through `b`.
proof fn lemma_expand(a: Seq<i64>, b: Seq<i64>, c: Seq<i64>, k: nat)
    ensures
        sq_dist_upto(a, c, k) == sq_dist_upto(a, b, k) + 2 * cross_upto(a, b, c, k) + sq_dist_upto(b, c, k),
    decreases k,
{
    if k > 0 {
        lemma_expand(a, b, c, (k - 1) as nat);
        let x = a[k - 1] - b[k - 1];
        let y = b[k - 1] - c[k - 1];
        assert((x + y) * (x + y) == x * x + 2 * (x * y) + y * y) by (nonlinear_arith);
        assert(x * x >= 0 && y * y >= 0 && (x + y) * (x + y) >= 0) by (nonlinear_arith);
    }
}

/// A nonnegative number whose square bounds another's square bounds its magnitude.
proof fn lemma_sq_le(p: int, q: int)
    requires
        p >= 0,
        q * q <= p * p,
    ensures
        q <= p,
        -q <= p,
{
    if q > p {
        assert(q * q > p * p) by (nonlinear_arith)
            requires q > p, p >= 0;
    }
    if -q > p {
        assert(q * q > p * p) by (nonlinear_arith)
            requires -q > p, p >= 0;
    }
}

/// Cauchy-Schwarz for the differences `a - b` and `b - c`.
proof fn lemma_cauchy_schwarz(a: Seq<i64>, b: Seq<i64>, c: Seq<i64>, k: nat)
    ensures
        cross_upto(a, b, c, k) * cross_upto(a, b, c, k) <= sq_dist_upto(a, b, k) * sq_dist_upto(b, c, k),
    decreases k,
{
    if k > 0 {
        let k1 = (k - 1) as nat;
        lemma_cauchy_schwarz(a, b, c, k1);
        let d = cross_upto(a, b, c, k1);
        let su = sq_dist_upto(a, b, k1) as int;
        let sv = sq_dist_upto(b, c, k1) as int;
        let x = a[k - 1] - b[k - 1];
        let y = b[k - 1] - c[k - 1];
        assert(x * x >= 0 && y * y >= 0) by (nonlinear_arith);
        let m = su * (y * y) + sv * (x * x);
        assert(m >= 0) by (nonlinear_arith)
            requires su >= 0, sv >= 0, m == su * (y * y) + sv * (x * x);
        assert(m * m >= 4 * (su * sv) * ((x * y) * (x * y))) by (nonlinear_arith)
            requires m == su * (y * y) + sv * (x * x);
        assert(4 * (su * sv) * ((x * y) * (x * y)) >= 4 * (d * d) * ((x * y) * (x * y))) by (nonlinear_arith)
            requires d * d <= su * sv;
        assert((2 * d * (x * y)) * (2 * d * (x * y)) == 4 * (d * d) * ((x * y) * (x * y))) by (nonlinear_arith);
        lemma_sq_le(m, 2 * d * (x * y));
        let t = x * y;
        let xx = x * x;
        let yy = y * y;
        assert((d + t) * (d + t) == d * d + 2 * d * t + t * t) by (nonlinear_arith);
        assert((su + xx) * (sv + yy) == su * sv + su * yy + xx * sv + xx * yy) by (nonlinear_arith);
        assert(xx * yy == t * t) by (nonlinear_arith)
            requires xx == x * x, yy == y * y, t == x * y;
        assert(xx * sv == sv * xx) by (nonlinear_arith);
    }
}

/// The distance from a vector to itself is zero.
pub proof fn lemma_distance_self(a: Seq<i64>, r: int)
    requires
        is_isqrt(r, sq_dist(a, a) as int),
    ensures
        r == 0,
{
    lemma_self_zero(a, a.len());
    if r > 0 {
        assert(r * r > 0) by (nonlinear_arith)
            requires r > 0;
    }
}

/// Every difference `a[i] - a[i]` is zero.
proof fn lemma_self_zero(a: Seq<i64>, k: nat)
    ensures
        sq_dist_upto(a, a, k) == 0,
    decreases k,
{
    if k > 0 {
        lemma_self_zero(a, (k - 1) as nat);
    }
}

/// Swapping the arguments keeps the squared distance.
proof fn lemma_sq_dist_symmetric(a: Seq<i64>, b: Seq<i64>, k: nat)
    ensures
        sq_dist_upto(a, b, k) == sq_dist_upto(b, a, k),
    decreases k,
{
    if k > 0 {
        lemma_sq_dist_symmetric(a, b, (k - 1) as nat);
        let d = a[k - 1] - b[k - 1];
        assert(d * d == (-d) * (-d)) by (nonlinear_arith);
    }
}

/// An integer square root is unique.
proof fn lemma_isqrt_unique(r1: int, r2: int, s: int)
    requires
        is_isqrt(r1, s),
        is_isqrt(r2, s),
    ensures
        r1 == r2,
{
    if r1 < r2 {
        assert((r1 + 1) * (r1 + 1) <= r2 * r2) by (nonlinear_arith)
            requires r1 + 1 <= r2, r1 >= 0;
    }
    if r2 < r1 {
        assert((r2 + 1) * (r2 + 1) <= r1 * r1) by (nonlinear_arith)
            requires r2 + 1 <= r1, r2 >= 0;
    }
}

/// Distance is symmetric: `a` to `b` is as far as `b` to `a`.
pub proof fn lemma_distance_symmetric(a: Seq<i64>, b: Seq<i64>, r1: int, r2: int)
    requires
        a.len() == b.len(),
        is_isqrt(r1, sq_dist(a, b) as int),
        is_isqrt(r2, sq_dist(b, a) as int),
    ensures
        r1 == r2,
{
    lemma_sq_dist_symmetric(a, b, a.len());
    lemma_isqrt_unique(r1, r2, sq_dist(a, b) as int);
}

/// The triangle inequality for exact distances, squared out: whenever `p`
/// bounds the distance from `a` to `b` and `q` that from `b` to `c`, `p + q`
/// bounds the distance from `a` to `c`.
pub proof fn lemma_triangle_exact(a: Seq<i64>, b: Seq<i64>, c: Seq<i64>, p: int, q: int)
    requires
        a.len() == b.len(),
        b.len() == c.len(),
        p >= 0,
        q >= 0,
        sq_dist(a, b) <= p * p,
        sq_dist(b, c) <= q * q,
    ensures
        sq_dist(a, c) <= (p + q) * (p + q),
        sq_dist(a, b) < p * p ==> sq_dist(a, c) < (p + q) * (p + q),
{
    let k = a.len();
    lemma_expand(a, b, c, k);
    lemma_cauchy_schwarz(a, b, c, k);
    let d = cross_upto(a, b, c, k);
    let su = sq_dist(a, b) as int;
    let sv = sq_dist(b, c) as int;
    assert(d * d <= (p * q) * (p * q)) by (nonlinear_arith)
        requires d * d <= su * sv, 0 <= su <= p * p, 0 <= sv <= q * q;
    assert(p * q >= 0) by (nonlinear_arith)
        requires p >= 0, q >= 0;
    lemma_sq_le(p * q, d);
    assert((p + q) * (p + q) == p * p + 2 * (p * q) + q * q) by (nonlinear_arith);
}

/// The triangle inequality for the rounded-down distances of `distance`:
/// rounding each down costs at most one.
pub proof fn lemma_distance_triangle(a: Seq<i64>, b: Seq<i64>, c: Seq<i64>, rab: int, rbc: int, rac: int)
    requires
        a.len() == b.len(),
        b.len() == c.len(),
        is_isqrt(rab, sq_dist(a, b) as int),
        is_isqrt(rbc, sq_dist(b, c) as int),
        is_isqrt(rac, sq_dist(a, c) as int),
    ensures
        rac <= rab + rbc + 1,
{
    lemma_triangle_exact(a, b, c, rab + 1, rbc + 1);
    if rac > rab + rbc + 1 {
        assert(rac * rac >= (rab + rbc + 2) * (rab + rbc + 2)) by (nonlinear_arith)
            requires rac >= rab + rbc + 2, rab >= 0, rbc >= 0;
    }
}

} // verus!
