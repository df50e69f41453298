//! Orchestration of the evolutionary loop.
//!
//! The population is a flat sequence of `width = elite_len * (1 + n_children)`
//! map sets of `maps_per_set` entries each, stored contiguously so that map
//! set `i` occupies `[i * maps_per_set, (i + 1) * maps_per_set)`.  One
//! generation runs the fixed stage cycle reset, `depth` simulation steps,
//! render, compare, the reduction passes, and finally the host-side select;
//! the driver executes the stages in exactly that order, so the plan built
//! here is the ordering contract between the stages.

use vstd::prelude::*;

verus! {

/// Sizing of an evolver: population shape, simulation depth and point count.
#[derive(Clone, Copy, Debug)]
pub struct EvolverConfig {
    /// Number of affine maps in one map set (one candidate IFS).
    pub maps_per_set: usize,
    /// Number of top-ranked map sets kept unmutated each generation.
    pub elite_len: usize,
    /// Simulation steps applied to every point cloud per generation.
    pub depth: usize,
    /// Mutated children derived from every elite each generation.
    pub n_children: usize,
    /// Points in every map set's point cloud.
    pub n_points: usize,
}

impl EvolverConfig {
    /// Number of map sets in the population.
    pub open spec fn width_spec(self) -> int {
        self.elite_len * (1 + self.n_children)
    }

    /// Number of affine entries in the flat population buffer.
    pub open spec fn population_len_spec(self) -> int {
        self.width_spec() * self.maps_per_set
    }

    /// A usable configuration: nonempty map sets, at least one elite, and a
    /// population that fits in addressable memory.
    pub open spec fn wf(self) -> bool {
        &&& 1 <= self.maps_per_set
        &&& 1 <= self.elite_len
        &&& self.population_len_spec() <= usize::MAX
    }

    /// Checks that the configuration is usable: nonempty map sets, at
    /// least one elite, and a population buffer that fits in memory.
    pub fn validate(&self) -> (r: bool)
        ensures
            r == self.wf(),
    {
        if self.maps_per_set < 1 || self.elite_len < 1 {
            return false;
        }
        match self.n_children.checked_add(1) {
            None => {
                proof {
                    assert(self.population_len_spec() > usize::MAX) by (nonlinear_arith)
                        requires
                            1 <= self.maps_per_set,
                            1 <= self.elite_len,
                            self.n_children + 1 > usize::MAX,
                            self.width_spec() == self.elite_len * (1 + self.n_children),
                            self.population_len_spec() == self.width_spec() * self.maps_per_set,
                    ;
                }
                false
            },
            Some(family) => match self.elite_len.checked_mul(family) {
                None => {
                    proof {
                        assert(self.population_len_spec() > usize::MAX) by (nonlinear_arith)
                            requires
                                1 <= self.maps_per_set,
                                self.width_spec() > usize::MAX,
                                self.population_len_spec() == self.width_spec()
                                    * self.maps_per_set,
                        ;
                    }
                    false
                },
                Some(w) => match w.checked_mul(self.maps_per_set) {
                    None => false,
                    Some(_) => true,
                },
            },
        }
    }

    /// Number of map sets in the population, `elite_len * (1 + n_children)`.
    pub fn width(&self) -> (w: usize)
        requires
            self.wf(),
        ensures
            w == self.width_spec(),
    {
        proof {
            assert(self.width_spec() <= self.population_len_spec() && 1 + self.n_children
                <= self.width_spec()) by (nonlinear_arith)
                requires
                    1 <= self.maps_per_set,
                    1 <= self.elite_len,
            ;
        }
        self.elite_len * (1 + self.n_children)
    }

    /// Length of the flat population buffer, `width * maps_per_set`.
    pub fn population_len(&self) -> (n: usize)
        requires
            self.wf(),
        ensures
            n == self.population_len_spec(),
    {
        let w = self.width();
        w * self.maps_per_set
    }

    /// First entry of map set `i` in the flat population buffer; the set
    /// ends at `offset + maps_per_set`, still within the buffer.
    pub fn map_set_offset(&self, i: usize) -> (offset: usize)
        requires
            self.wf(),
            i < self.width_spec(),
        ensures
            offset == i * self.maps_per_set,
            offset + self.maps_per_set <= self.population_len_spec(),
    {
        proof {
            assert(i * self.maps_per_set + self.maps_per_set <= self.population_len_spec())
                by (nonlinear_arith)
                requires
                    0 <= i,
                    i < self.width_spec(),
                    1 <= self.maps_per_set,
                    self.population_len_spec() == self.width_spec() * self.maps_per_set,
            ;
        }
        i * self.maps_per_set
    }
}

/// One stage of a generation, in the order the driver must submit them.
#[derive(Clone, Copy, Debug, PartialEq, Eq, Structural)]
pub enum Stage {
    /// Copy the shared seed points into every map set's point buffer.
    Reset,
    /// Apply one probabilistic map iteration to every point cloud.
    Step(usize),
    /// Rasterize every point cloud into its offscreen texture.
    Render,
    /// Score every rendered texture against the target, per pixel.
    Compare,
    /// One pairwise tree-reduction pass over the per-pixel scores.
    Reduce(usize),
    /// Download scores, rank, rebuild the population on the host.
    Select,
}

/// The stage sequence of one generation: reset, `depth` simulation steps,
/// render, compare, `reduce_passes` reduction passes, then select.
pub fn generation_plan(depth: usize, reduce_passes: usize) -> (p: Vec<Stage>)
    requires
        depth + reduce_passes + 4 <= usize::MAX,
    ensures
        p@.len() == depth + reduce_passes + 4,
        p@[0] == Stage::Reset,
        forall|i: int| 0 <= i < depth ==> #[trigger] p@[1 + i] == Stage::Step(i as usize),
        p@[depth + 1] == Stage::Render,
        p@[depth + 2] == Stage::Compare,
        forall|j: int| 0 <= j < reduce_passes ==> #[trigger] p@[depth + 3 + j] == Stage::Reduce(j as usize),
        p@[depth + reduce_passes + 3] == Stage::Select,
{
    let mut p: Vec<Stage> = Vec::new();
    p.push(Stage::Reset);
    let mut i: usize = 0;
    while i < depth
        invariant
            i <= depth,
            depth + reduce_passes + 4 <= usize::MAX,
            p@.len() == 1 + i,
            p@[0] == Stage::Reset,
            forall|k: int| 0 <= k < i ==> #[trigger] p@[1 + k] == Stage::Step(k as usize),
        decreases depth - i,
    {
        p.push(Stage::Step(i));
        i = i + 1;
    }
    p.push(Stage::Render);
    p.push(Stage::Compare);
    let mut j: usize = 0;
    while j < reduce_passes
        invariant
            j <= reduce_passes,
            depth + reduce_passes + 4 <= usize::MAX,
            p@.len() == depth + 3 + j,
            p@[0] == Stage::Reset,
            forall|k: int| 0 <= k < depth ==> #[trigger] p@[1 + k] == Stage::Step(k as usize),
            p@[depth + 1] == Stage::Render,
            p@[depth + 2] == Stage::Compare,
            forall|k: int| 0 <= k < j ==> #[trigger] p@[depth + 3 + k] == Stage::Reduce(k as usize),
        decreases reduce_passes - j,
    {
        p.push(Stage::Reduce(j));
        j = j + 1;
    }
    p.push(Stage::Select);
    p
}

/// Host state of the evolutionary loop: the fixed sizing and the index of
/// the generation about to run.  All device resources live with the driver.
#[derive(Clone, Copy, Debug)]
pub struct Evolver {
    pub config: EvolverConfig,
    pub generation: usize,
}

impl Evolver {
    /// A fresh evolver, about to run generation zero.
    pub fn new(config: EvolverConfig) -> (r: Evolver)
        requires
            config.wf(),
        ensures
            r.config == config,
            r.generation == 0,
    {
        Evolver { config, generation: 0 }
    }

    /// The stage sequence of the coming generation.
    pub fn plan(&self, reduce_passes: usize) -> (p: Vec<Stage>)
        requires
            self.config.wf(),
            self.config.depth + reduce_passes + 4 <= usize::MAX,
        ensures
            p@.len() == self.config.depth + reduce_passes + 4,
            p@[0] == Stage::Reset,
            forall|i: int| 0 <= i < self.config.depth ==> #[trigger] p@[1 + i] == Stage::Step(
                i as usize,
            ),
            p@[self.config.depth + 1] == Stage::Render,
            p@[self.config.depth + 2] == Stage::Compare,
            forall|j: int|
                0 <= j < reduce_passes ==> #[trigger] p@[self.config.depth + 3 + j]
                    == Stage::Reduce(j as usize),
            p@[self.config.depth + reduce_passes + 3] == Stage::Select,
    {
        generation_plan(self.config.depth, reduce_passes)
    }

    /// Moves on to the next generation once a select cycle completed.
    pub fn advance_generation(&mut self)
        requires
            old(self).generation < usize::MAX,
        ensures
            final(self).generation == old(self).generation + 1,
            final(self).config == old(self).config,
    {
        self.generation = self.generation + 1;
    }

    /// The best map set after a select cycle: selection writes the
    /// highest-ranked elite first, so it is the first `maps_per_set` entries
    /// of the population.
    pub fn best_map_set<T: Copy>(&self, population: &Vec<T>) -> (r: Vec<T>)
        requires
            self.config.wf(),
            population@.len() == self.config.population_len_spec(),
        ensures
            r@ == population@.subrange(0, self.config.maps_per_set as int),
    {
        proof {
            assert(self.config.maps_per_set <= self.config.population_len_spec())
                by (nonlinear_arith)
                requires
                    1 <= self.config.maps_per_set,
                    1 <= self.config.elite_len,
                    self.config.width_spec() == self.config.elite_len * (1 + self.config.n_children),
                    self.config.population_len_spec() == self.config.width_spec()
                        * self.config.maps_per_set,
            ;
        }
        let mut r: Vec<T> = Vec::new();
        let mut k: usize = 0;
        while k < self.config.maps_per_set
            invariant
                k <= self.config.maps_per_set,
                self.config.maps_per_set <= population@.len(),
                r@.len() == k,
                forall|m: int| 0 <= m < k ==> r@[m] == population@[m],
            decreases self.config.maps_per_set - k,
        {
            r.push(population[k]);
            k = k + 1;
        }
        proof {
            assert(r@ =~= population@.subrange(0, self.config.maps_per_set as int));
        }
        r
    }
}

} // verus!
