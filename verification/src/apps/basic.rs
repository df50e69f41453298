//! Configuration of the interactive fractal viewer application.

use vstd::prelude::*;

verus! {

/// Options of the basic viewer: how many points to simulate, how often to
/// redraw, and optionally where to record how many generations.
///
/// Recording is all-or-nothing: an output path is only meaningful together
/// with a generation count, and vice versa.
pub struct Cli {
    pub n_points: usize,
    pub delta_time_ms: u64,
    pub out: Option<String>,
    pub n_gens: Option<usize>,
}

impl Cli {
    /// Whether the recording options are consistent: an output path and a
    /// generation count are given together or not at all.
    pub open spec fn wf(self) -> bool {
        self.out is Some <==> self.n_gens is Some
    }

    /// Checks the recording options.
    pub fn validate(&self) -> (r: bool)
        ensures
            r == self.wf(),
    {
        self.out.is_some() == self.n_gens.is_some()
    }
}

} // verus!
