//! Built-in iterated function systems for the viewer.
//!
//! Each preset names a fixed family of affine maps.  The map coefficients
//! are floating-point constants and live with the unverified driver; here
//! each preset states its shape — how many maps one iteration chooses from —
//! which the simulation stage relies on when it indexes the map buffer.

use vstd::prelude::*;

verus! {

/// The Sierpinski triangle: three half-scale contractions.
pub struct Sierpinski;

/// Two rotated near-unit contractions forming a yin-yang-like swirl.
pub struct Yang;

/// The chaos game on a regular polygon with `n` corners.
pub struct Polygon {
    pub n: u32,
}

/// The Barnsley fern: stem, main frond and two side fronds.
pub struct Barnsley;

/// A square playfully rebuilt from a rotation, its inverse and identity.
pub struct SillySquare;

/// Two stacked contractions and a quarter turn.
pub struct Patrick;

/// Two stacked contractions and two free rotations filling a disc.
pub struct Disc;

/// Three off-center contractions in a bat-like arrangement.
pub struct Pipistrello;

/// A rotated center contraction ringed by four side contractions.
pub struct Tunnel;

/// A weed: stem, upward shoot and two mirrored side shoots.
pub struct Weed;

/// A star-shaped flower of five mirrored corner contractions.
pub struct FleurAstrale;

/// Five contractions centered on the corners of a regular pentagon.
pub struct Pentagon;

impl Polygon {
    /// Number of maps an iteration chooses from: one per corner.
    pub fn map_count(&self) -> (n: usize)
        ensures
            n == self.n,
    {
        self.n as usize
    }
}

impl Sierpinski {
    /// Number of maps an iteration chooses from.
    pub fn map_count(&self) -> (n: usize)
        ensures
            n == 3,
    {
        3
    }
}

impl Yang {
    /// Number of maps an iteration chooses from.
    pub fn map_count(&self) -> (n: usize)
        ensures
            n == 2,
    {
        2
    }
}

impl Barnsley {
    /// Number of maps an iteration chooses from.
    pub fn map_count(&self) -> (n: usize)
        ensures
            n == 4,
    {
        4
    }
}

impl SillySquare {
    /// Number of maps an iteration chooses from.
    pub fn map_count(&self) -> (n: usize)
        ensures
            n == 3,
    {
        3
    }
}

impl Patrick {
    /// Number of maps an iteration chooses from.
    pub fn map_count(&self) -> (n: usize)
        ensures
            n == 3,
    {
        3
    }
}

impl Disc {
    /// Number of maps an iteration chooses from.
    pub fn map_count(&self) -> (n: usize)
        ensures
            n == 4,
    {
        4
    }
}

impl Pipistrello {
    /// Number of maps an iteration chooses from.
    pub fn map_count(&self) -> (n: usize)
        ensures
            n == 3,
    {
        3
    }
}

impl Tunnel {
    /// Number of maps an iteration chooses from.
    pub fn map_count(&self) -> (n: usize)
        ensures
            n == 5,
    {
        5
    }
}

impl Weed {
    /// Number of maps an iteration chooses from.
    pub fn map_count(&self) -> (n: usize)
        ensures
            n == 4,
    {
        4
    }
}

impl FleurAstrale {
    /// Number of maps an iteration chooses from.
    pub fn map_count(&self) -> (n: usize)
        ensures
            n == 5,
    {
        5
    }
}

impl Pentagon {
    /// Number of maps an iteration chooses from.
    pub fn map_count(&self) -> (n: usize)
        ensures
            n == 5,
    {
        5
    }
}

} // verus!
