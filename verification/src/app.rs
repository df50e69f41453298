//! Application-lifecycle types shared with the windowed driver.

use vstd::prelude::*;

verus! {

/// Requests that the enclosing application stop scheduling further work.
///
/// The driver polls the flag between generations; stopping is cooperative,
/// never preemptive, so a generation in flight always completes.
#[derive(Debug)]
pub struct AppController {
    pub exit_requested: bool,
}

impl AppController {
    /// A fresh controller with no exit requested yet.
    pub fn new() -> (r: AppController)
        ensures
            !r.exit_requested,
    {
        AppController { exit_requested: false }
    }

    /// Records the request to exit; once set it is never withdrawn.
    pub fn exit(&mut self)
        ensures
            final(self).exit_requested,
    {
        self.exit_requested = true;
    }
}

/// Construction-time failure: no compatible GPU adapter was found.
pub struct NoAdapter;

/// Construction-time failure: no compatible GPU device was found.
pub struct NoDevice;

impl NoAdapter {
    /// The message reported when construction aborts.
    pub fn message(&self) -> &'static str {
        "no compatible adapter"
    }
}

impl NoDevice {
    /// The message reported when construction aborts.
    pub fn message(&self) -> &'static str {
        "no compatible device"
    }
}

} // verus!
