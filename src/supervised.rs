use vstd::prelude::*;
use crate::datapoint::DataPoint;
use crate::error::MlError;
use crate::fixed::{
    SCALE, fx, fx_mul, sat_add, sat_sub, tdiv, add_sat, sub_sat, mul_fixed, mul_fixed_checked, div_trunc,
};
use crate::vector::{Vector, fits_i64};

verus! {

/// A sample is usable for training when its input has `in_dims` entries and it
/// carries an output of `out_dims` entries, at least one.
pub open spec fn is_usable(p: DataPoint, in_dims: nat, out_dims: nat) -> bool {
    &&& p.input_view().len() == in_dims
    &&& p.output_view() is Some
    &&& p.output_len() == out_dims
    &&& out_dims > 0
}

/// The usable samples of `data`, in order.
pub open spec fn usable(data: Seq<DataPoint>, in_dims: nat, out_dims: nat) -> Seq<DataPoint>
    decreases data.len(),
{
    if data.len() == 0 {
        Seq::empty()
    } else {
        let prev = usable(data.drop_last(), in_dims, out_dims);
        if is_usable(data.last(), in_dims, out_dims) {
            prev.push(data.last())
        } else {
            prev
        }
    }
}

/// A sample's row of the design matrix: one (the intercept) and then its inputs.
pub open spec fn design_row(p: DataPoint) -> Seq<i64> {
    seq![SCALE].add(p.input_view())
}

/// A sample's target: the first entry of its output.
pub open spec fn target(p: DataPoint) -> i64 {
    p.output_view()->Some_0[0]
}

/// The design matrix of a list of samples.
pub open spec fn design(v: Seq<DataPoint>) -> Seq<Seq<i64>> {
    Seq::new(v.len(), |i: int| design_row(v[i]))
}

/// The targets of a list of samples.
pub open spec fn targets(v: Seq<DataPoint>) -> Seq<i64> {
    Seq::new(v.len(), |i: int| target(v[i]))
}

/// Fixed-point dot product of the first `k` entries, saturating at each step.
pub open spec fn dot_upto(x: Seq<i64>, w: Seq<i64>, k: nat) -> int
    decreases k,
{
    if k == 0 {
        0
    } else {
        sat_add(dot_upto(x, w, (k - 1) as nat), fx_mul(x[k - 1] as int, w[k - 1] as int))
    }
}

/// Prediction minus target for one design row.
pub open spec fn residual(x: Seq<i64>, y: i64, w: Seq<i64>) -> int {
    sat_sub(dot_upto(x, w, w.len()), y as int)
}

/// The residuals of every row under weights `w`.
pub open spec fn residuals(xs: Seq<Seq<i64>>, ys: Seq<i64>, w: Seq<i64>) -> Seq<int> {
    Seq::new(xs.len(), |i: int| residual(xs[i], ys[i], w))
}

/// Sum over the first `k` rows of residual times column `j`, saturating at each step.
pub open spec fn grad_upto(xs: Seq<Seq<i64>>, es: Seq<int>, j: int, k: nat) -> int
    decreases k,
{
    if k == 0 {
        0
    } else {
        sat_add(grad_upto(xs, es, j, (k - 1) as nat), fx_mul(es[k - 1], xs[k - 1][j] as int))
    }
}

/// Weight `j` after one batch step: less the learning rate times the mean gradient.
pub open spec fn step_weight(xs: Seq<Seq<i64>>, es: Seq<int>, w: Seq<i64>, lr: i64, j: int) -> i64 {
    sat_sub(w[j] as int, fx_mul(lr as int, tdiv(grad_upto(xs, es, j, xs.len()), xs.len() as int))) as i64
}

/// One batch gradient-descent step on all weights at once.
pub open spec fn gd_step(xs: Seq<Seq<i64>>, ys: Seq<i64>, w: Seq<i64>, lr: i64) -> Seq<i64> {
    Seq::new(w.len(), |j: int| step_weight(xs, residuals(xs, ys, w), w, lr, j))
}

/// The weights after `iters` batch steps from `w`.
pub open spec fn gd(xs: Seq<Seq<i64>>, ys: Seq<i64>, w: Seq<i64>, lr: i64, iters: nat) -> Seq<i64>
    decreases iters,
{
    if iters == 0 {
        w
    } else {
        gd_step(xs, ys, gd(xs, ys, w, lr, (iters - 1) as nat), lr)
    }
}

/// Fixed-point dot product of a design row and the weights.
fn dot_fixed(x: &Vec<i64>, w: &Vec<i64>) -> (r: i64)
    requires
        x@.len() == w@.len(),
    ensures
        r == dot_upto(x@, w@, w@.len()),
{
    let mut acc: i64 = 0;
    let mut j: usize = 0;
    while j < w.len()
        invariant
            j <= w@.len(),
            x@.len() == w@.len(),
            acc == dot_upto(x@, w@, j as nat),
        decreases w@.len() - j,
    {
        acc = add_sat(acc, mul_fixed(x[j], w[j]));
        j = j + 1;
    }
    acc
}

/// Saturating sum over the rows of residual times column `j`.
fn grad_sum(xs: &Vec<Vec<i64>>, es: &Vec<i64>, j: usize) -> (r: i64)
    requires
        xs@.len() == es@.len(),
        forall|i: int| 0 <= i < xs@.len() ==> j < #[trigger] xs@[i]@.len(),
    ensures
        r == grad_upto(Seq::new(xs@.len(), |i: int| xs@[i]@), Seq::new(es@.len(), |i: int| es@[i] as int), j as int, xs@.len()),
{
    let ghost rows = Seq::new(xs@.len(), |i: int| xs@[i]@);
    let ghost ei = Seq::new(es@.len(), |i: int| es@[i] as int);
    let mut acc: i64 = 0;
    let mut i: usize = 0;
    while i < xs.len()
        invariant
            i <= xs@.len(),
            xs@.len() == es@.len(),
            forall|k: int| 0 <= k < xs@.len() ==> j < #[trigger] xs@[k]@.len(),
            rows == Seq::new(xs@.len(), |k: int| xs@[k]@),
            ei == Seq::new(es@.len(), |k: int| es@[k] as int),
            acc == grad_upto(rows, ei, j as int, i as nat),
        decreases xs@.len() - i,
    {
        acc = add_sat(acc, mul_fixed(es[i], xs[i][j]));
        i = i + 1;
    }
    acc
}

/// Exact fixed-point dot product of the first `k` entries.
pub open spec fn xdot_upto(x: Seq<i64>, w: Seq<i64>, k: nat) -> int
    decreases k,
{
    if k == 0 {
        0
    } else {
        xdot_upto(x, w, (k - 1) as nat) + fx(x[k - 1] as int, w[k - 1] as int)
    }
}

/// Term `k - 1` of the dot product, and the sum of the first `k` terms, fit in `i64`.
pub open spec fn dot_step_fits(x: Seq<i64>, w: Seq<i64>, k: int) -> bool {
    fits_i64(fx(x[k - 1] as int, w[k - 1] as int)) && fits_i64(xdot_upto(x, w, k as nat))
}

/// Every term and partial sum of the dot product of `x` and `w` fits in `i64`.
pub open spec fn dot_fits(x: Seq<i64>, w: Seq<i64>) -> bool {
    forall|k: int| 1 <= k <= w.len() ==> #[trigger] dot_step_fits(x, w, k)
}

/// Exact prediction minus target for one sample.
pub open spec fn exact_error(p: DataPoint, w: Seq<i64>) -> int {
    xdot_upto(design_row(p), w, w.len()) - target(p) as int
}

/// The prediction, error and squared error of one sample fit in `i64`.
pub open spec fn point_fits(p: DataPoint, w: Seq<i64>) -> bool {
    &&& dot_fits(design_row(p), w)
    &&& fits_i64(exact_error(p, w))
    &&& fits_i64(fx(exact_error(p, w), exact_error(p, w)))
}

/// Exact fixed-point sum of squared errors over the first `k` samples.
pub open spec fn sse_upto(ps: Seq<DataPoint>, w: Seq<i64>, k: nat) -> int
    decreases k,
{
    if k == 0 {
        0
    } else {
        let e = exact_error(ps[k - 1], w);
        sse_upto(ps, w, (k - 1) as nat) + fx(e, e)
    }
}

/// Sample `k - 1` fits, and so does the sum over the first `k` samples.
pub open spec fn sse_step_fits(ps: Seq<DataPoint>, w: Seq<i64>, k: int) -> bool {
    point_fits(ps[k - 1], w) && fits_i64(sse_upto(ps, w, k as nat))
}

/// Every intermediate value of the sum of squared errors fits in `i64`.
pub open spec fn sse_fits(ps: Seq<DataPoint>, w: Seq<i64>) -> bool {
    forall|k: int| 1 <= k <= ps.len() ==> #[trigger] sse_step_fits(ps, w, k)
}

/// A sample is ready for evaluation by a model with `in_dims` inputs: its
/// input has that length and its output at least one entry.
pub open spec fn eval_ready(p: DataPoint, in_dims: nat) -> bool {
    p.input_view().len() == in_dims && p.output_len() > 0
}

/// Exact fixed-point dot product; `None` where a term or partial sum leaves `i64`.
fn dot_checked(x: &Vec<i64>, w: &Vec<i64>) -> (r: Option<i64>)
    requires
        x@.len() == w@.len(),
    ensures
        r is Some <==> dot_fits(x@, w@),
        r is Some ==> r->Some_0 == xdot_upto(x@, w@, w@.len()),
{
    let mut acc: i64 = 0;
    let mut j: usize = 0;
    while j < w.len()
        invariant
            j <= w@.len(),
            x@.len() == w@.len(),
            acc == xdot_upto(x@, w@, j as nat),
            forall|k: int| 1 <= k <= j ==> #[trigger] dot_step_fits(x@, w@, k),
        decreases w@.len() - j,
    {
        match mul_fixed_checked(x[j], w[j]) {
            Some(t) => match acc.checked_add(t) {
                Some(s) => {
                    acc = s;
                    assert(dot_step_fits(x@, w@, j + 1));
                },
                None => {
                    assert(!dot_step_fits(x@, w@, j + 1));
                    return None;
                },
            },
            None => {
                assert(!dot_step_fits(x@, w@, j + 1));
                return None;
            },
        }
        j = j + 1;
    }
    Some(acc)
}

/// A linear model fitted by batch gradient descent.
///
/// Inputs, outputs and weights are fixed-point numbers with `SCALE` units per
/// whole. Weight 0 is the intercept; weight `j + 1` is the coefficient of
/// input `j`.
#[derive(Clone, Debug)]
pub struct LinearRegression {
    input_dimensions: usize,
    output_dimensions: usize,
    weights: Vector,
}

impl LinearRegression {
    /// The number of inputs.
    pub closed spec fn in_dims(&self) -> nat {
        self.input_dimensions as nat
    }

    /// The number of outputs.
    pub closed spec fn out_dims(&self) -> nat {
        self.output_dimensions as nat
    }

    /// The weights, intercept first.
    pub closed spec fn weights_view(&self) -> Seq<i64> {
        self.weights@
    }

    /// There is one weight per input, and one for the intercept.
    pub open spec fn wf(&self) -> bool {
        self.weights_view().len() == self.in_dims() + 1
    }

    /// An untrained model of the given dimensions, with all weights zero.
    pub fn new_from_dims(input_dimensions: usize, output_dimensions: usize) -> (r: Self)
        requires
            input_dimensions < usize::MAX,
        ensures
            r.wf(),
            r.in_dims() == input_dimensions,
            r.out_dims() == output_dimensions,
            r.weights_view() == Seq::new((input_dimensions + 1) as nat, |i: int| 0i64),
    {
        LinearRegression {
            input_dimensions,
            output_dimensions,
            weights: Vector::new_from_dims(input_dimensions + 1, 0),
        }
    }

    /// An untrained model with the dimensions of `points`, with all weights zero.
    pub fn new_from_points(points: &DataPoint) -> (r: Self)
        requires
            points.input_view().len() < usize::MAX,
        ensures
            r.wf(),
            r.in_dims() == points.input_view().len(),
            r.out_dims() == points.output_len(),
            r.weights_view() == Seq::new(points.input_view().len() + 1, |i: int| 0i64),
    {
        let (i, o) = points.get_dimensions();
        Self::new_from_dims(i, o)
    }

    /// Trains the weights by `iterations` batch gradient-descent steps of
    /// rate `learning_rate` over the usable samples of `training_data`.
    /// Samples that are not usable are skipped; with none usable the weights
    /// stay as they were.
    pub fn fit(&mut self, training_data: &[DataPoint], learning_rate: i64, iterations: u64)
        requires
            old(self).wf(),
        ensures
            final(self).wf(),
            final(self).in_dims() == old(self).in_dims(),
            final(self).out_dims() == old(self).out_dims(),
            usable(training_data@, old(self).in_dims(), old(self).out_dims()).len() == 0
                ==> final(self).weights_view() == old(self).weights_view(),
            ({
                let v = usable(training_data@, old(self).in_dims(), old(self).out_dims());
                v.len() > 0 ==> final(self).weights_view()
                    == gd(design(v), targets(v), old(self).weights_view(), learning_rate, iterations as nat)
            }),
    {
        let ghost in_d = self.in_dims();
        let ghost out_d = self.out_dims();
        let mut xs: Vec<Vec<i64>> = Vec::new();
        let mut ys: Vec<i64> = Vec::new();
        let mut i: usize = 0;
        while i < training_data.len()
            invariant
                i <= training_data@.len(),
                in_d == self.input_dimensions,
                out_d == self.output_dimensions,
                xs@.len() == ys@.len(),
                forall|k: int| 0 <= k < xs@.len() ==> (#[trigger] xs@[k]@).len() == in_d + 1,
                xs@.len() == usable(training_data@.take(i as int), in_d, out_d).len(),
                forall|k: int| 0 <= k < xs@.len() ==> #[trigger] xs@[k]@
                    == design_row(usable(training_data@.take(i as int), in_d, out_d)[k]),
                forall|k: int| 0 <= k < ys@.len() ==> #[trigger] ys@[k]
                    == target(usable(training_data@.take(i as int), in_d, out_d)[k]),
            decreases training_data@.len() - i,
        {
            let p = &training_data[i];
            let ghost before = usable(training_data@.take(i as int), in_d, out_d);
            assert(training_data@.take(i + 1).drop_last() =~= training_data@.take(i as int));
            assert(training_data@.take(i + 1).last() == training_data@[i as int]);
            let (pi, po) = p.get_dimensions();
            if pi == self.input_dimensions && po == self.output_dimensions && po > 0 {
                if let Some(out) = p.get_output() {
                    let input = p.get_input();
                    let mut row: Vec<i64> = Vec::new();
                    row.push(SCALE);
                    let mut j: usize = 0;
                    while j < pi
                        invariant
                            j <= pi,
                            pi == input@.len(),
                            row@ == seq![SCALE].add(input@.take(j as int)),
                        decreases pi - j,
                    {
                        row.push(input.at(j));
                        j = j + 1;
                        assert(row@ =~= seq![SCALE].add(input@.take(j as int)));
                    }
                    assert(input@.take(pi as int) =~= input@);
                    xs.push(row);
                    ys.push(out.at(0));
                    proof {
                        let after = usable(training_data@.take(i + 1), in_d, out_d);
                        assert(after == before.push(*p));
                        assert forall|k: int| 0 <= k < xs@.len() implies #[trigger] xs@[k]@
                            == design_row(after[k]) by {
                            if k < xs@.len() - 1 {
                                assert(after[k] == before[k]);
                            }
                        }
                        assert forall|k: int| 0 <= k < ys@.len() implies #[trigger] ys@[k]
                            == target(after[k]) by {
                            if k < ys@.len() - 1 {
                                assert(after[k] == before[k]);
                            }
                        }
                    }
                }
            }
            i = i + 1;
        }
        assert(training_data@.take(training_data@.len() as int) =~= training_data@);
        let ghost v = usable(training_data@, in_d, out_d);
        let n = xs.len();
        if n == 0 {
            return;
        }
        let ghost dx = design(v);
        let ghost ty = targets(v);
        assert(Seq::new(xs@.len(), |k: int| xs@[k]@) =~= dx);
        assert(ys@ =~= ty);
        let ghost w0 = self.weights@;
        let d = self.weights.len();
        let mut w: Vec<i64> = self.weights.as_vec();
        let mut it: u64 = 0;
        while it < iterations
            invariant
                it <= iterations,
                n == xs@.len(),
                n == ys@.len(),
                n > 0,
                d == in_d + 1,
                w@.len() == d,
                forall|k: int| 0 <= k < n ==> (#[trigger] xs@[k]@).len() == d,
                dx == Seq::new(xs@.len(), |k: int| xs@[k]@),
                ys@ == ty,
                w@ == gd(dx, ty, w0, learning_rate, it as nat),
            decreases iterations - it,
        {
            let ghost wp = w@;
            let mut es: Vec<i64> = Vec::with_capacity(n);
            let mut r: usize = 0;
            while r < n
                invariant
                    r <= n,
                    n == xs@.len(),
                    n == ys@.len(),
                    w@ == wp,
                    w@.len() == d,
                    forall|k: int| 0 <= k < n ==> (#[trigger] xs@[k]@).len() == d,
                    dx == Seq::new(xs@.len(), |k: int| xs@[k]@),
                    ys@ == ty,
                    es@.len() == r,
                    forall|k: int| 0 <= k < r ==> #[trigger] es@[k] == residuals(dx, ty, wp)[k],
                decreases n - r,
            {
                let pred = dot_fixed(&xs[r], &w);
                es.push(sub_sat(pred, ys[r]));
                r = r + 1;
            }
            assert(Seq::new(es@.len(), |k: int| es@[k] as int) =~= residuals(dx, ty, wp));
            let mut j: usize = 0;
            while j < d
                invariant
                    j <= d,
                    n == xs@.len(),
                    n == es@.len(),
                    n > 0,
                    w@.len() == d,
                    wp.len() == d,
                    forall|k: int| 0 <= k < n ==> (#[trigger] xs@[k]@).len() == d,
                    dx == Seq::new(xs@.len(), |k: int| xs@[k]@),
                    Seq::new(es@.len(), |k: int| es@[k] as int) == residuals(dx, ty, wp),
                    forall|k: int| 0 <= k < j ==> #[trigger] w@[k] == step_weight(dx, residuals(dx, ty, wp), wp, learning_rate, k),
                    forall|k: int| j <= k < d ==> #[trigger] w@[k] == wp[k],
                decreases d - j,
            {
                let g = grad_sum(&xs, &es, j);
                let mean = div_trunc(g as i128, n as u64);
                let upd = sub_sat(w[j], mul_fixed(learning_rate, mean as i64));
                w.set(j, upd);
                j = j + 1;
            }
            assert(w@ =~= gd_step(dx, ty, wp, learning_rate));
            it = it + 1;
        }
        self.weights = Vector::new_from_vec(w);
    }

    /// Sum of squared errors of the model's predictions against the first
    /// output of each of `points`, in fixed point.
    pub fn eval(&self, points: &[DataPoint]) -> (r: Result<i64, MlError>)
        requires
            self.wf(),
        ensures
            points@.len() == 0 ==> r == Err::<i64, MlError>(MlError::EmptyInput),
            points@.len() > 0 && (exists|k: int| 0 <= k < points@.len() && (#[trigger] points@[k]).output_view() is None)
                ==> r == Err::<i64, MlError>(MlError::MissingLabel),
            points@.len() > 0 && (forall|k: int| 0 <= k < points@.len() ==> (#[trigger] points@[k]).output_view() is Some)
                && (exists|k: int| 0 <= k < points@.len() && !eval_ready(#[trigger] points@[k], self.in_dims()))
                ==> r == Err::<i64, MlError>(MlError::DimensionMismatch),
            points@.len() > 0 && (forall|k: int| 0 <= k < points@.len() ==> (#[trigger] points@[k]).output_view() is Some)
                && (forall|k: int| 0 <= k < points@.len() ==> eval_ready(#[trigger] points@[k], self.in_dims()))
                && !sse_fits(points@, self.weights_view())
                ==> r == Err::<i64, MlError>(MlError::Overflow),
            points@.len() > 0 && (forall|k: int| 0 <= k < points@.len() ==> (#[trigger] points@[k]).output_view() is Some)
                && (forall|k: int| 0 <= k < points@.len() ==> eval_ready(#[trigger] points@[k], self.in_dims()))
                && sse_fits(points@, self.weights_view())
                ==> r == Ok::<i64, MlError>(sse_upto(points@, self.weights_view(), points@.len()) as i64),
    {
        if points.len() == 0 {
            return Err(MlError::EmptyInput);
        }
        let mut i: usize = 0;
        while i < points.len()
            invariant
                i <= points@.len(),
                forall|k: int| 0 <= k < i ==> (#[trigger] points@[k]).output_view() is Some,
            decreases points@.len() - i,
        {
            if points[i].get_output().is_none() {
                return Err(MlError::MissingLabel);
            }
            i = i + 1;
        }
        let mut i: usize = 0;
        while i < points.len()
            invariant
                i <= points@.len(),
                forall|k: int| 0 <= k < points@.len() ==> (#[trigger] points@[k]).output_view() is Some,
                forall|k: int| 0 <= k < i ==> eval_ready(#[trigger] points@[k], self.in_dims()),
            decreases points@.len() - i,
        {
            let (pi, po) = points[i].get_dimensions();
            if pi != self.input_dimensions || po == 0 {
                assert(!eval_ready(points@[i as int], self.in_dims()));
                return Err(MlError::DimensionMismatch);
            }
            i = i + 1;
        }
        let w: Vec<i64> = self.weights.as_vec();
        let mut acc: i64 = 0;
        let mut i: usize = 0;
        while i < points.len()
            invariant
                i <= points@.len(),
                w@ == self.weights_view(),
                w@.len() == self.in_dims() + 1,
                forall|k: int| 0 <= k < points@.len() ==> (#[trigger] points@[k]).output_view() is Some,
                forall|k: int| 0 <= k < points@.len() ==> eval_ready(#[trigger] points@[k], self.in_dims()),
                acc == sse_upto(points@, w@, i as nat),
                forall|k: int| 1 <= k <= i ==> #[trigger] sse_step_fits(points@, w@, k),
            decreases points@.len() - i,
        {
            let p = &points[i];
            let input = p.get_input();
            let mut row: Vec<i64> = Vec::new();
            row.push(SCALE);
            let mut j: usize = 0;
            while j < input.len()
                invariant
                    j <= input@.len(),
                    row@ == seq![SCALE].add(input@.take(j as int)),
                decreases input@.len() - j,
            {
                row.push(input.at(j));
                j = j + 1;
                assert(row@ =~= seq![SCALE].add(input@.take(j as int)));
            }
            assert(input@.take(input@.len() as int) =~= input@);
            assert(eval_ready(points@[i as int], self.in_dims()));
            let y: i64 = match p.get_output() {
                Some(o) => o.at(0),
                None => 0,
            };
            let ghost pt = points@[i as int];
            let d = match dot_checked(&row, &w) {
                Some(d) => d,
                None => {
                    assert(!sse_step_fits(points@, w@, i + 1));
                    return Err(MlError::Overflow);
                },
            };
            let e = match d.checked_sub(y) {
                Some(e) => e,
                None => {
                    assert(!sse_step_fits(points@, w@, i + 1));
                    return Err(MlError::Overflow);
                },
            };
            assert(e == exact_error(pt, w@));
            let sq = match mul_fixed_checked(e, e) {
                Some(sq) => sq,
                None => {
                    assert(!sse_step_fits(points@, w@, i + 1));
                    return Err(MlError::Overflow);
                },
            };
            match acc.checked_add(sq) {
                Some(s) => {
                    acc = s;
                    assert(sse_step_fits(points@, w@, i + 1));
                },
                None => {
                    assert(!sse_step_fits(points@, w@, i + 1));
                    return Err(MlError::Overflow);
                },
            }
            i = i + 1;
        }
        Ok(acc)
    }

    /// The coefficients, one per input, without the intercept.
    pub fn get_coefficients(&self) -> (r: Vec<i64>)
        requires
            self.wf(),
        ensures
            r@ == self.weights_view().skip(1),
    {
        let mut r: Vec<i64> = Vec::new();
        let mut j: usize = 1;
        while j < self.weights.len()
            invariant
                1 <= j <= self.weights_view().len(),
                r@ == self.weights_view().subrange(1, j as int),
            decreases self.weights_view().len() - j,
        {
            r.push(self.weights.at(j));
            j = j + 1;
            assert(r@ =~= self.weights_view().subrange(1, j as int));
        }
        assert(r@ =~= self.weights_view().skip(1));
        r
    }

    /// The intercept.
    pub fn get_intercept(&self) -> (r: i64)
        requires
            self.wf(),
        ensures
            r == self.weights_view()[0],
    {
        self.weights.at(0)
    }

    /// `(input dimensions, output dimensions)`.
    pub fn get_dimensions(&self) -> (r: (usize, usize))
        ensures
            r.0 == self.in_dims(),
            r.1 == self.out_dims(),
    {
        (self.input_dimensions, self.output_dimensions)
    }
}

} // verus!
