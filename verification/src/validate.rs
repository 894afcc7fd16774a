use vstd::prelude::*;

verus! {

/// Why a request was rejected before any computation ran.
///
/// Degenerate numeric inputs (a zero-range matrix, a zero-variance window)
/// are deliberately not an error: the discretizer sends a zero-range matrix
/// to bin 0, and a correlation cell whose every lag is degenerate keeps the
/// not-a-number sentinel. Both policies are stated on the functions involved.
#[derive(Clone, Copy, Debug, PartialEq, Eq, Structural)]
pub enum DepError {
    /// A matrix had an inconsistent element count for its stated shape, or
    /// two sources disagreed on the number of time steps.
    InvalidShape,
    /// The bin count fell outside `(0, 128]`.
    InvalidBinCount,
    /// The lag bounds were not strictly ordered above zero, or the series is
    /// too short for the largest lag.
    InvalidLagRange,
}

/// Two sources may only be combined when they agree on the number of time
/// steps; `t_x` and `t_y` are the two time dimensions.
pub fn check_time_match(t_x: usize, t_y: usize) -> (r: Result<(), DepError>)
    ensures
        r == if t_x == t_y {
            Result::<(), DepError>::Ok(())
        } else {
            Result::<(), DepError>::Err(DepError::InvalidShape)
        },
{
    if t_x == t_y {
        Ok(())
    } else {
        Err(DepError::InvalidShape)
    }
}

} // verus!
