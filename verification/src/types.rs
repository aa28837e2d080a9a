//! Plain value types of the simulation core, and the spatial cell index.

use vstd::prelude::*;
use crate::fixed::{POS_LIMIT, RADIUS_LIMIT, GRID_DIM_LIMIT};

verus! {

/// A two-dimensional fixed-point vector.
#[derive(Clone, Copy, PartialEq, Eq, Structural, Debug)]
pub struct Vec2i {
    pub x: i64,
    pub y: i64,
}

/// A vector whose components both fit within the accepted coordinate range.
pub open spec fn in_limits(v: Vec2i) -> bool {
    &&& -POS_LIMIT <= v.x <= POS_LIMIT
    &&& -POS_LIMIT <= v.y <= POS_LIMIT
}

/// A particle's state: where it is and how fast it moves.
#[derive(Clone, Copy, PartialEq, Eq, Structural, Debug)]
pub struct Particle {
    pub position: Vec2i,
    pub velocity: Vec2i,
}

/// Immutable configuration of a simulation run.
#[derive(Clone, Copy, Debug)]
pub struct Fluid {
    /// Number of particles in the run.
    pub n: usize,
    /// Interaction radius of the smoothing kernel, strictly positive.
    pub radius: i64,
    /// Speed scale, carried for collaborators; the core update does not read it.
    pub speed: i64,
    /// Number of grid cells along each axis, at least one.
    pub grid_dims: [usize; 2],
    /// Lower corner of the fluid space, componentwise below `bounds_max`.
    pub bounds_min: [i64; 2],
    /// Upper corner of the fluid space.
    pub bounds_max: [i64; 2],
}

impl Fluid {
    /// Configuration invariant: positive bounded radius, non-degenerate
    /// bounds within the coordinate range, and grid dimensions of at least
    /// one cell per axis.
    pub open spec fn valid(self) -> bool {
        &&& 0 < self.radius <= RADIUS_LIMIT
        &&& 1 <= self.grid_dims[0] <= GRID_DIM_LIMIT
        &&& 1 <= self.grid_dims[1] <= GRID_DIM_LIMIT
        &&& -POS_LIMIT <= self.bounds_min[0] < self.bounds_max[0] <= POS_LIMIT
        &&& -POS_LIMIT <= self.bounds_min[1] < self.bounds_max[1] <= POS_LIMIT
    }

    /// Validating constructor: accepts exactly the configurations that
    /// satisfy the invariant, and rejects the rest before any tick runs.
    pub fn new(
        n: usize,
        radius: i64,
        speed: i64,
        grid_dims: [usize; 2],
        bounds_min: [i64; 2],
        bounds_max: [i64; 2],
    ) -> (r: Option<Fluid>)
        ensures
            r == (if (Fluid { n, radius, speed, grid_dims, bounds_min, bounds_max }).valid() {
                Some(Fluid { n, radius, speed, grid_dims, bounds_min, bounds_max })
            } else {
                None::<Fluid>
            }),
    {
        let f = Fluid { n, radius, speed, grid_dims, bounds_min, bounds_max };
        if 0 < f.radius && f.radius <= RADIUS_LIMIT && 1 <= f.grid_dims[0] && f.grid_dims[0]
            <= GRID_DIM_LIMIT && 1 <= f.grid_dims[1] && f.grid_dims[1] <= GRID_DIM_LIMIT
            && -POS_LIMIT <= f.bounds_min[0] && f.bounds_min[0] < f.bounds_max[0]
            && f.bounds_max[0] <= POS_LIMIT && -POS_LIMIT <= f.bounds_min[1] && f.bounds_min[1]
            < f.bounds_max[1] && f.bounds_max[1] <= POS_LIMIT {
            Some(f)
        } else {
            None
        }
    }

    /// Cell identifier of a particle's position in the uniform grid,
    /// row-major: `cy * grid_dims[0] + cx`.
    pub open spec fn cell_of(self, pos: Vec2i) -> int {
        axis_cell(pos.y as int, self.bounds_min[1] as int, self.bounds_max[1] as int, self.grid_dims[1] as int)
            * (self.grid_dims[0] as int) + axis_cell(
            pos.x as int,
            self.bounds_min[0] as int,
            self.bounds_max[0] as int,
            self.grid_dims[0] as int,
        )
    }

    /// Maps a particle's position into the grid. Positions outside the
    /// configured bounds are clamped to them first, so the result always
    /// lies below `grid_dims[0] * grid_dims[1]`.
    pub fn grid_idx(&self, p: &Particle) -> (c: usize)
        requires
            self.valid(),
            in_limits(p.position),
        ensures
            c == self.cell_of(p.position),
            c < self.grid_dims[0] * self.grid_dims[1],
    {
        let cx = axis_cell_exec(
            p.position.x,
            self.bounds_min[0],
            self.bounds_max[0],
            self.grid_dims[0],
        );
        let cy = axis_cell_exec(
            p.position.y,
            self.bounds_min[1],
            self.bounds_max[1],
            self.grid_dims[1],
        );
        proof {
            assert(cy * self.grid_dims[0] + cx < self.grid_dims[0] * self.grid_dims[1]
                <= GRID_DIM_LIMIT * GRID_DIM_LIMIT) by (nonlinear_arith)
                requires
                    0 <= cx < self.grid_dims[0] <= GRID_DIM_LIMIT,
                    0 <= cy < self.grid_dims[1] <= GRID_DIM_LIMIT,
            ;
        }
        cy * self.grid_dims[0] + cx
    }
}

/// One axis of the cell index: the position is clamped into `[lo, hi]`,
/// scaled into `dim` equal cells, and the upper edge is folded into the
/// last cell.
pub open spec fn axis_cell(x: int, lo: int, hi: int, dim: int) -> int {
    let xc = if x < lo {
        lo
    } else if x > hi {
        hi
    } else {
        x
    };
    let t = (xc - lo) * dim / (hi - lo);
    if t >= dim {
        dim - 1
    } else {
        t
    }
}

/// The axis cell is always within `[0, dim)`.
pub proof fn lemma_axis_cell_in_range(x: int, lo: int, hi: int, dim: int)
    requires
        lo < hi,
        dim >= 1,
    ensures
        0 <= axis_cell(x, lo, hi, dim) < dim,
{
    let xc = if x < lo {
        lo
    } else if x > hi {
        hi
    } else {
        x
    };
    assert(0 <= (xc - lo) * dim) by (nonlinear_arith)
        requires
            xc >= lo,
            dim >= 1,
    ;
    vstd::arithmetic::div_mod::lemma_div_pos_is_pos((xc - lo) * dim, hi - lo);
    assert((xc - lo) * dim <= (hi - lo) * dim) by (nonlinear_arith)
        requires
            xc <= hi,
            dim >= 1,
    ;
    vstd::arithmetic::div_mod::lemma_div_is_ordered((xc - lo) * dim, (hi - lo) * dim, hi - lo);
    vstd::arithmetic::div_mod::lemma_div_by_multiple(dim, hi - lo);
}

/// Executable form of `axis_cell`.
fn axis_cell_exec(x: i64, lo: i64, hi: i64, dim: usize) -> (c: usize)
    requires
        -POS_LIMIT <= lo < hi <= POS_LIMIT,
        1 <= dim <= GRID_DIM_LIMIT,
    ensures
        c == axis_cell(x as int, lo as int, hi as int, dim as int),
        c < dim,
{
    proof {
        lemma_axis_cell_in_range(x as int, lo as int, hi as int, dim as int);
    }
    let xc: i64 = if x < lo {
        lo
    } else if x > hi {
        hi
    } else {
        x
    };
    proof {
        assert((xc - lo) as int * (dim as int) <= 2 * POS_LIMIT * GRID_DIM_LIMIT)
            by (nonlinear_arith)
            requires
                0 <= (xc - lo) as int <= 2 * POS_LIMIT,
                1 <= dim <= GRID_DIM_LIMIT,
        ;
    }
    let num: u64 = ((xc - lo) as u64) * (dim as u64);
    let den: u64 = (hi - lo) as u64;
    let t: u64 = num / den;
    if t >= dim as u64 {
        dim - 1
    } else {
        t as usize
    }
}

} // verus!
