use vstd::prelude::*;

verus! {

/// The dimensions of an M-step: `n` observations in `d` dimensions, `k` components.
#[derive(Clone, Copy, Debug, PartialEq, Eq, Structural)]
pub struct Shape {
    pub n: usize,
    pub d: usize,
    pub k: usize,
}

/// Why the inputs of an M-step cannot be combined.
#[derive(Clone, Copy, Debug, PartialEq, Eq, Structural)]
pub enum ShapeError {
    /// `data` and `responsibilities` disagree on the number of observations.
    RowCountMismatch { data_rows: usize, responsibility_rows: usize },
    /// There is no observation.
    NoObservations,
    /// The observations have no coordinate.
    NoDimensions,
    /// There is no component.
    NoComponents,
    /// A row of `data` is not as long as the first.
    RaggedData,
    /// A row of `responsibilities` is not as long as the first.
    RaggedResponsibilities,
}

/// The error that `mstep_shape` reports for the given dimensions, if any.
pub open spec fn shape_error(
    data_rows: usize,
    data_cols: usize,
    resp_rows: usize,
    resp_cols: usize,
) -> Option<ShapeError> {
    if data_rows != resp_rows {
        Some(ShapeError::RowCountMismatch { data_rows, responsibility_rows: resp_rows })
    } else if data_rows == 0 {
        Some(ShapeError::NoObservations)
    } else if data_cols == 0 {
        Some(ShapeError::NoDimensions)
    } else if resp_cols == 0 {
        Some(ShapeError::NoComponents)
    } else {
        None
    }
}

/// Derives the shape of an M-step from a `data_rows` x `data_cols` data matrix
/// and a `resp_rows` x `resp_cols` responsibility matrix (observations by
/// components).
pub fn mstep_shape(data_rows: usize, data_cols: usize, resp_rows: usize, resp_cols: usize) -> (r:
    Result<Shape, ShapeError>)
    ensures
        match shape_error(data_rows, data_cols, resp_rows, resp_cols) {
            Some(e) => r == Err::<Shape, ShapeError>(e),
            None => r == Ok::<Shape, ShapeError>(Shape { n: data_rows, d: data_cols, k: resp_cols }),
        },
{
    if data_rows != resp_rows {
        Err(ShapeError::RowCountMismatch { data_rows, responsibility_rows: resp_rows })
    } else if data_rows == 0 {
        Err(ShapeError::NoObservations)
    } else if data_cols == 0 {
        Err(ShapeError::NoDimensions)
    } else if resp_cols == 0 {
        Err(ShapeError::NoComponents)
    } else {
        Ok(Shape { n: data_rows, d: data_cols, k: resp_cols })
    }
}

} // verus!
