use vstd::prelude::*;

verus! {

/// `std::path::PathBuf`, which the library only carries along.
#[verifier::external_type_specification]
#[verifier::external_body]
pub struct ExPathBuf(std::path::PathBuf);

/// Why a conversion did not run.
#[derive(Clone, Copy, Debug, PartialEq, Eq, Structural)]
pub enum Error {
    /// Fewer than three initial points were asked for.
    TooFewPoints,
    /// A negative number of refinement passes was asked for.
    NegativeIterations,
    /// The image has no pixels to take colours from.
    EmptyImage,
    /// The image is wider or higher than [`crate::point::MAX_PIXEL`] pixels.
    ImageTooLarge,
}

/// Smallest number of initial points that a conversion accepts.
pub const MIN_INITIAL_POINTS: usize = 3;

/// What one conversion is to do.
pub struct Config {
    pub path_in: std::path::PathBuf,
    pub path_out: std::path::PathBuf,
    pub n_initial_points: usize,
    pub n_iterations: i32,
    pub max_diff: i32,
}

/// The error that the two counts of a configuration call for, if any.
pub open spec fn count_error(n_initial_points: usize, n_iterations: i32) -> Option<Error> {
    if n_initial_points < MIN_INITIAL_POINTS {
        Some(Error::TooFewPoints)
    } else if n_iterations < 0 {
        Some(Error::NegativeIterations)
    } else {
        None
    }
}

/// Checks the number of initial points and the number of passes.
pub fn check_counts(n_initial_points: usize, n_iterations: i32) -> (r: Result<(), Error>)
    ensures
        r.is_ok() <==> count_error(n_initial_points, n_iterations).is_none(),
        r matches Err(e) ==> Some(e) == count_error(n_initial_points, n_iterations),
{
    if n_initial_points < MIN_INITIAL_POINTS {
        Err(Error::TooFewPoints)
    } else if n_iterations < 0 {
        Err(Error::NegativeIterations)
    } else {
        Ok(())
    }
}

impl Config {
    /// Checks the configuration before any work begins.
    pub fn validate(&self) -> (r: Result<(), Error>)
        ensures
            r.is_ok() <==> count_error(self.n_initial_points, self.n_iterations).is_none(),
            r matches Err(e) ==> Some(e) == count_error(self.n_initial_points, self.n_iterations),
    {
        check_counts(self.n_initial_points, self.n_iterations)
    }
}

} // verus!
