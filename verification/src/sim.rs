//! Host-computed schedules for the simulation stage.
//!
//! The point buffer is larger than one dispatch may cover, so it is split
//! into chunks of a device-dependent maximum length; and the per-point
//! choice of a map is driven by a lookup table in which each map index
//! appears once per slot of its probability band.  Both are plain data
//! computed ahead of the dispatches; the driver binds them unchanged.

use vstd::prelude::*;

verus! {

/// One dispatch chunk: the index of its first element and its length.
#[derive(Clone, Copy, Debug, PartialEq, Eq, Structural)]
pub struct Chunk {
    pub start: u32,
    pub len: u32,
}

/// Splits `total` elements into dispatch chunks of at most `chunk` elements:
/// full chunks first, then the remainder if any, covering `total` exactly.
pub fn chunk_schedule(total: u32, chunk: u32) -> (r: Vec<Chunk>)
    requires
        1 <= chunk,
    ensures
        r@.len() == total / chunk + if total % chunk == 0 {
            0int
        } else {
            1int
        },
        forall|i: int|
            0 <= i < total / chunk ==> #[trigger] r@[i] == (Chunk {
                start: (i * chunk) as u32,
                len: chunk,
            }),
        total % chunk != 0 ==> r@[total as int / chunk as int] == (Chunk {
            start: (total - total % chunk) as u32,
            len: total % chunk,
        }),
{
    let full: u32 = total / chunk;
    let rem: u32 = total % chunk;
    proof {
        assert(chunk * full + rem == total && full * chunk == chunk * full) by (nonlinear_arith)
            requires
                1 <= chunk,
                full == total / chunk,
                rem == total % chunk,
        ;
    }
    let mut r: Vec<Chunk> = Vec::new();
    let mut i: u32 = 0;
    while i < full
        invariant
            i <= full,
            1 <= chunk,
            full * chunk + rem == total,
            r@.len() == i,
            forall|k: int|
                0 <= k < i ==> #[trigger] r@[k] == (Chunk { start: (k * chunk) as u32, len: chunk }),
        decreases full - i,
    {
        proof {
            assert(i * chunk + chunk <= full * chunk) by (nonlinear_arith)
                requires
                    0 <= i,
                    i < full,
                    1 <= chunk,
            ;
        }
        r.push(Chunk { start: i * chunk, len: chunk });
        i = i + 1;
    }
    if rem != 0 {
        r.push(Chunk { start: total - rem, len: rem });
        proof {
            assert(full * chunk == total - rem);
        }
    }
    r
}

/// Lower bound of map `i`'s band in the index table: the previous band's
/// upper bound, or zero for the first map.
pub open spec fn band_start(boundaries: Seq<u32>, i: int) -> int {
    if i == 0 {
        0
    } else {
        boundaries[i - 1] as int
    }
}

/// Builds the map-index lookup table from the cumulative band boundaries:
/// slot `j` holds the index of the map whose band contains `j`, so map `i`
/// fills the slots from `band_start` up to `boundaries[i]`.  The driver
/// derives the boundaries from the maps' probability weights; a point then
/// picks a map by sampling a uniform slot.
pub fn map_index_table(boundaries: &Vec<u32>) -> (r: Vec<u32>)
    requires
        1 <= boundaries@.len() <= u32::MAX,
        forall|i: int, j: int|
            #![trigger boundaries@[i], boundaries@[j]]
            0 <= i <= j < boundaries@.len() ==> boundaries@[i] <= boundaries@[j],
    ensures
        r@.len() == boundaries@.last(),
        forall|i: int, j: int|
            #![trigger boundaries@[i], r@[j]]
            0 <= i < boundaries@.len() && band_start(boundaries@, i) <= j < boundaries@[i]
                ==> r@[j] == i,
{
    let mut r: Vec<u32> = Vec::new();
    let n = boundaries.len();
    let mut i: usize = 0;
    while i < n
        invariant
            i <= n,
            n == boundaries@.len(),
            n <= u32::MAX,
            forall|m: int, m2: int|
                #![trigger boundaries@[m], boundaries@[m2]]
                0 <= m <= m2 < n ==> boundaries@[m] <= boundaries@[m2],
            r@.len() == band_start(boundaries@, i as int),
            forall|m: int, j: int|
                #![trigger boundaries@[m], r@[j]]
                0 <= m < i && band_start(boundaries@, m) <= j < boundaries@[m] ==> r@[j] == m,
        decreases n - i,
    {
        let upper = boundaries[i];
        let mut j: u32 = if i == 0 {
            0
        } else {
            boundaries[i - 1]
        };
        while j < upper
            invariant
                band_start(boundaries@, i as int) <= j <= upper,
                i < n,
                n == boundaries@.len(),
                n <= u32::MAX,
                upper == boundaries@[i as int],
                forall|m: int, m2: int|
                    #![trigger boundaries@[m], boundaries@[m2]]
                    0 <= m <= m2 < n ==> boundaries@[m] <= boundaries@[m2],
                forall|m: int, j2: int|
                    #![trigger boundaries@[m], r@[j2]]
                    0 <= m < i && band_start(boundaries@, m) <= j2 < boundaries@[m] ==> r@[j2] == m,
                r@.len() == j,
                forall|j2: int|
                    band_start(boundaries@, i as int) <= j2 < j ==> r@[j2] == i,
            decreases upper - j,
        {
            r.push(i as u32);
            j = j + 1;
        }
        i = i + 1;
    }
    r
}

} // verus!
