//! Host-side core of a GPU evolutionary image-approximation engine.
//!
//! A population of "map sets" (ordered groups of affine maps forming an
//! iterated function system) is simulated, rendered and scored on the GPU;
//! the host ranks the scored map sets, keeps the best ones as elites and
//! rebuilds the population from elites and mutated children.  This crate
//! verifies the host-side decision logic of that loop: score ranking and
//! elite selection, population layout arithmetic, the double-buffered tree
//! reduction that folds per-pixel scores into one scalar per map set, and
//! the dispatch schedules handed to the GPU.  Floating-point parameter
//! mutation and all device work live outside, in the unverified driver.

use vstd::prelude::*;

pub mod app;
pub mod apps;
pub mod evolver;
pub mod map;
pub mod reduce;
pub mod select;
pub mod sim;

verus! {

/// Command-line surface of the enclosing program: which application to run.
pub struct Cli {
    pub app: AppCli,
}

/// The applications the program can start.
pub enum AppCli {
    Basic(crate::apps::basic::Cli),
}

} // verus!
