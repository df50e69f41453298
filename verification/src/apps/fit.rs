//! Configuration of the image-fitting application, which runs the evolver
//! against a fixed target image.

use vstd::prelude::*;
use crate::evolver::EvolverConfig;

verus! {

/// Options of the fitting application.  The evolver sizing is fixed.
pub struct Cli {}

impl Cli {
    /// The evolver sizing the fitting application runs with.
    pub fn config(&self) -> (c: EvolverConfig)
        ensures
            c.maps_per_set == 6,
            c.elite_len == 3,
            c.depth == 15,
            c.n_children == 20,
            c.n_points == 50000,
            c.wf(),
    {
        EvolverConfig { maps_per_set: 6, elite_len: 3, depth: 15, n_children: 20, n_points: 50000 }
    }
}

} // verus!
