use vstd::prelude::*;

use crate::config::Output;
use crate::dimension::Dimension;
use crate::error::ShapeError;

verus! {

/// Whether a dimension has `lens.0` observed rows and `lens.1` query rows.
pub open spec fn fits<R>(d: Dimension<R>, lens: (usize, usize)) -> bool {
    d.data_rows() == lens.0 && d.pred_rows() == lens.1
}

/// The error for a dimension that does not fit the declared row counts:
/// the observed rows are checked before the query rows.
pub open spec fn misfit<R>(d: Dimension<R>, lens: (usize, usize)) -> ShapeError {
    if d.data_rows() != lens.0 {
        ShapeError::RowCount { expected: lens.0, found: d.data_rows() as usize }
    } else {
        ShapeError::RowCount { expected: lens.1, found: d.pred_rows() as usize }
    }
}

/// The aggregation engine: dimensions in their configured order, one
/// observed value per observed row, and where the averages go.
pub struct Weave<R> {
    dimensions: Vec<Dimension<R>>,
    values: Vec<R>,
    lens: (usize, usize),
    output: Output,
}

impl<R> Weave<R> {
    #[verifier::type_invariant]
    spec fn inv(&self) -> bool {
        &&& self.values@.len() == self.lens.0
        &&& forall|k: int| 0 <= k < self.dimensions@.len() ==> fits(#[trigger] self.dimensions@[k], self.lens)
    }

    /// The dimensions, in the order in which they apply.
    pub closed spec fn spec_dimensions(&self) -> Seq<Dimension<R>> {
        self.dimensions@
    }

    /// The observed values.
    pub closed spec fn spec_values(&self) -> Seq<R> {
        self.values@
    }

    /// The number of observed and of query rows.
    pub closed spec fn spec_lens(&self) -> (usize, usize) {
        self.lens
    }

    /// Where the averages are written.
    pub closed spec fn spec_output(&self) -> Output {
        self.output
    }

    /// Assembles a weave over `lens.0` observed and `lens.1` query rows.
    /// Fails if the observed values are not one per observed row, or else
    /// at the first dimension whose coordinates have other row counts.
    pub fn new(dimensions: Vec<Dimension<R>>, values: Vec<R>, lens: (usize, usize), output: Output) -> (r:
        Result<Self, ShapeError>)
        ensures
            values@.len() == lens.0 && (forall|k: int|
                0 <= k < dimensions@.len() ==> fits(#[trigger] dimensions@[k], lens)) <==> r is Ok,
            r matches Ok(w) ==> w.spec_dimensions() == dimensions@ && w.spec_values() == values@
                && w.spec_lens() == lens && w.spec_output() == output,
            r matches Err(e) ==> if values@.len() != lens.0 {
                e == (ShapeError::ValueCount { expected: lens.0, found: values.len() })
            } else {
                exists|k: int|
                    0 <= k < dimensions@.len() && !fits(#[trigger] dimensions@[k], lens) && (forall|
                        m: int,
                    |
                        0 <= m < k ==> fits(#[trigger] dimensions@[m], lens)) && e == misfit(
                        dimensions@[k],
                        lens,
                    )
            },
    {
        if values.len() != lens.0 {
            return Err(ShapeError::ValueCount { expected: lens.0, found: values.len() });
        }
        let mut k: usize = 0;
        while k < dimensions.len()
            invariant
                k <= dimensions@.len(),
                values@.len() == lens.0,
                forall|m: int| 0 <= m < k ==> fits(#[trigger] dimensions@[m], lens),
            decreases dimensions@.len() - k,
        {
            let (n_data, n_pred) = dimensions[k].lens();
            if n_data != lens.0 {
                assert(!fits(dimensions@[k as int], lens));
                return Err(ShapeError::RowCount { expected: lens.0, found: n_data });
            }
            if n_pred != lens.1 {
                assert(!fits(dimensions@[k as int], lens));
                return Err(ShapeError::RowCount { expected: lens.1, found: n_pred });
            }
            k += 1;
        }
        Ok(Weave { dimensions, values, lens, output })
    }

    /// The dimensions, in the order in which they apply.
    pub fn dimensions(&self) -> (r: &[Dimension<R>])
        ensures
            r@ == self.spec_dimensions(),
            forall|k: int| 0 <= k < r@.len() ==> fits(#[trigger] r@[k], self.spec_lens()),
    {
        proof {
            use_type_invariant(self);
        }
        self.dimensions.as_slice()
    }

    /// The observed values, one per observed row.
    pub fn values(&self) -> (r: &[R])
        ensures
            r@ == self.spec_values(),
            r@.len() == self.spec_lens().0,
    {
        proof {
            use_type_invariant(self);
        }
        self.values.as_slice()
    }

    /// The number of observed and of query rows.
    pub fn lens(&self) -> (r: (usize, usize))
        ensures
            r == self.spec_lens(),
    {
        self.lens
    }

    /// Where the averages are written.
    pub fn output(&self) -> (r: &Output)
        ensures
            *r == self.spec_output(),
    {
        &self.output
    }
}

} // verus!
