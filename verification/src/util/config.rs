//! Options that steer how shapes are approximated and indexed.

use vstd::prelude::*;

verus! {

/// Largest number of additional poles that can be asked for.
pub const MAX_POLES: usize = 0xFFFF;

/// How the disk surrogate of a polygon is built.
#[derive(Clone, Copy, Debug, PartialEq, Eq, Structural)]
pub struct SPSurrogateConfig {
    /// Share of the polygon's area, in thousandths, that the poles should
    /// cover before no more are sought.
    pub pole_coverage_goal: u16,
    /// Largest number of poles beside the pole of inaccessibility.
    pub max_poles: usize,
    /// Number of poles to test first in a collision check.
    pub n_ff_poles: usize,
    /// Number of piers to test first in a collision check.
    pub n_ff_piers: usize,
}

impl SPSurrogateConfig {
    /// The coverage goal is a share above zero and at most one, and the pole
    /// count is within `MAX_POLES`.
    pub open spec fn wf(self) -> bool {
        1 <= self.pole_coverage_goal <= 1000 && self.max_poles <= MAX_POLES
    }

    /// Tells whether the options can be used.
    pub fn check(&self) -> (r: bool)
        ensures
            r == self.wf(),
    {
        1 <= self.pole_coverage_goal && self.pole_coverage_goal <= 1000 && self.max_poles
            <= MAX_POLES
    }
}

impl Default for SPSurrogateConfig {
    fn default() -> (r: Self)
        ensures
            r == (SPSurrogateConfig {
                pole_coverage_goal: 900,
                max_poles: 10,
                n_ff_poles: 2,
                n_ff_piers: 0,
            }),
            r.wf(),
    {
        SPSurrogateConfig { pole_coverage_goal: 900, max_poles: 10, n_ff_poles: 2, n_ff_piers: 0 }
    }
}

/// Options of the collision detection engine.
#[derive(Clone, Copy, Debug, PartialEq, Eq, Structural)]
pub struct CDEConfig {
    /// Largest depth of the quadtree.
    pub quadtree_depth: u8,
    /// Number of cells that the hazard proximity grid aims for.
    pub hpg_n_cells: usize,
    pub item_surrogate_config: SPSurrogateConfig,
}

impl CDEConfig {
    /// The surrogate options can be used and the grid has at least one cell.
    pub open spec fn wf(self) -> bool {
        self.item_surrogate_config.wf() && self.hpg_n_cells >= 1
    }

    /// Tells whether the options can be used.
    pub fn check(&self) -> (r: bool)
        ensures
            r == self.wf(),
    {
        self.item_surrogate_config.check() && self.hpg_n_cells >= 1
    }
}

impl Default for CDEConfig {
    fn default() -> (r: Self)
        ensures
            r == (CDEConfig {
                quadtree_depth: 5,
                hpg_n_cells: 2000,
                item_surrogate_config: SPSurrogateConfig {
                    pole_coverage_goal: 900,
                    max_poles: 10,
                    n_ff_poles: 2,
                    n_ff_piers: 0,
                },
            }),
            r.wf(),
    {
        CDEConfig {
            quadtree_depth: 5,
            hpg_n_cells: 2000,
            item_surrogate_config: SPSurrogateConfig {
                pole_coverage_goal: 900,
                max_poles: 10,
                n_ff_poles: 2,
                n_ff_piers: 0,
            },
        }
    }
}

} // verus!
