use vstd::prelude::*;
use crate::vector::Vector;

verus! {

/// One training sample: an input vector and, when labelled, an output vector.
#[derive(Clone, Debug)]
pub struct DataPoint {
    input: Vector,
    output: Option<Vector>,
}

impl DataPoint {
    /// The input vector.
    pub closed spec fn input_view(&self) -> Seq<i64> {
        self.input@
    }

    /// The output vector, if any.
    pub closed spec fn output_view(&self) -> Option<Seq<i64>> {
        match self.output {
            Some(o) => Some(o@),
            None => None,
        }
    }

    /// The output's length, or 0 for an unlabelled sample.
    pub open spec fn output_len(&self) -> nat {
        match self.output_view() {
            Some(o) => o.len(),
            None => 0,
        }
    }

    /// A labelled sample whose input and output are all zero.
    pub fn new_from_dims(input_dims: usize, output_dims: usize) -> (r: DataPoint)
        ensures
            r.input_view() == Seq::new(input_dims as nat, |i: int| 0i64),
            r.output_view() == Some(Seq::new(output_dims as nat, |i: int| 0i64)),
    {
        DataPoint {
            input: Vector::new_from_dims(input_dims, 0),
            output: Some(Vector::new_from_dims(output_dims, 0)),
        }
    }

    /// A sample made of the given vectors.
    pub fn new_from_vec(input: Vector, output: Option<Vector>) -> (r: DataPoint)
        ensures
            r.input_view() == input@,
            r.output_view() == (match output {
                Some(o) => Some(o@),
                None => None::<Seq<i64>>,
            }),
    {
        DataPoint { input, output }
    }

    /// The input vector.
    pub fn get_input(&self) -> (r: &Vector)
        ensures
            r@ == self.input_view(),
    {
        &self.input
    }

    /// The output vector, if any.
    pub fn get_output(&self) -> (r: &Option<Vector>)
        ensures
            r is Some <==> self.output_view() is Some,
            r is Some ==> r->Some_0@ == self.output_view()->Some_0,
    {
        &self.output
    }

    /// `(input length, output length)`; the output length is 0 when unlabelled.
    pub fn get_dimensions(&self) -> (r: (usize, usize))
        ensures
            r.0 == self.input_view().len(),
            r.1 == self.output_len(),
    {
        let o: usize = match &self.output {
            Some(v) => v.len(),
            None => 0,
        };
        (self.input.len(), o)
    }
}

} // verus!
