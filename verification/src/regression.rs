//! Input checks of the ordinary-least-squares fit.
//!
//! The fit itself is closed-form floating-point arithmetic and lives with the
//! caller; what the library owns is the decision which inputs are fit at all:
//! fewer than two observations cannot determine a line, and a constant
//! independent variable makes the least-squares slope undefined.

use vstd::prelude::*;

verus! {

/// Why a set of observations cannot be fitted.
#[derive(Debug, Clone, Copy, PartialEq, Eq, Structural)]
pub enum FitError {
    /// Fewer than two observations were supplied.
    InsufficientData,
    /// Every value of the independent variable is identical, so the
    /// least-squares slope is undefined.
    DegenerateInput,
}

/// Decides whether a fit may proceed, from the number of observations and
/// from whether every value of the independent variable is the same.
/// Too few observations are reported before a degenerate independent
/// variable, so a single observation counts as insufficient, not degenerate.
pub fn fit_precheck(n_observations: usize, times_all_equal: bool) -> (r: Result<(), FitError>)
    ensures
        n_observations < 2 ==> r == Err::<(), FitError>(FitError::InsufficientData),
        n_observations >= 2 && times_all_equal ==> r == Err::<(), FitError>(
            FitError::DegenerateInput,
        ),
        n_observations >= 2 && !times_all_equal ==> r == Ok::<(), FitError>(()),
{
    if n_observations < 2 {
        Err(FitError::InsufficientData)
    } else if times_all_equal {
        Err(FitError::DegenerateInput)
    } else {
        Ok(())
    }
}

} // verus!
