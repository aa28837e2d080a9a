//! The per-particle update: explicit Euler translation, repulsion from the
//! neighbors listed in the particle's own grid cell, and elastic reflection
//! at the rectangular bounds.

use vstd::prelude::*;
use crate::fixed::{
    SCALE,
    POS_LIMIT,
    H_LIMIT,
    CELL_LIMIT,
    MAG_LIMIT,
    div_trunc,
    div_trunc_i64,
    fp_mul,
    sqrt_floor,
    isqrt,
    lemma_sqrt_floor_monotone,
    lemma_sqrt_floor_square,
    lemma_div_trunc_bound,
};
use crate::kernel::{smooth, smooth_spec};
use crate::types::{Vec2i, Particle, Fluid, in_limits};

verus! {

/// One-dimensional elastic reflection: a coordinate past a bound is clamped
/// to that bound and the velocity component is negated; a coordinate in
/// range is left alone.
pub open spec fn reflect_spec(x: int, v: int, lower: int, upper: int) -> (int, int) {
    if x < lower {
        (lower, -v)
    } else if x > upper {
        (upper, -v)
    } else {
        (x, v)
    }
}

/// Executable boundary reflector.
pub fn constrain_1d(x: i64, v: i64, lower: i64, upper: i64) -> (r: (i64, i64))
    requires
        v > i64::MIN,
    ensures
        (r.0 as int, r.1 as int) == reflect_spec(x as int, v as int, lower as int, upper as int),
{
    if x < lower {
        (lower, -v)
    } else if x > upper {
        (upper, -v)
    } else {
        (x, v)
    }
}

/// Euclidean distance between two points, rounded down to a raw unit.
pub open spec fn dist_spec(a: Vec2i, b: Vec2i) -> int {
    sqrt_floor(
        ((a.x - b.x) as int) * ((a.x - b.x) as int) + ((a.y - b.y) as int) * ((a.y - b.y) as int),
    )
}

/// Executable distance.
pub fn distance(a: Vec2i, b: Vec2i) -> (d: i64)
    requires
        in_limits(a),
        in_limits(b),
    ensures
        d == dist_spec(a, b),
        0 <= d <= 3_000_000_000_000i64,
{
    let dx: i64 = a.x - b.x;
    let dy: i64 = a.y - b.y;
    proof {
        assert(0 <= (dx as int) * (dx as int) <= (2 * POS_LIMIT) * (2 * POS_LIMIT) && 0 <= (
        dy as int) * (dy as int) <= (2 * POS_LIMIT) * (2 * POS_LIMIT)) by (nonlinear_arith)
            requires
                -2 * POS_LIMIT <= dx <= 2 * POS_LIMIT,
                -2 * POS_LIMIT <= dy <= 2 * POS_LIMIT,
        ;
    }
    let sq: u128 = ((dx as i128) * (dx as i128) + (dy as i128) * (dy as i128)) as u128;
    let du: u128 = isqrt(sq);
    proof {
        assert(du <= 3_000_000_000_000u128) by (nonlinear_arith)
            requires
                0 <= du,
                (du as int) * (du as int) <= 8_000_000_000_000_000_000_000_000int,
        ;
    }
    du as i64
}

/// Unit vector pointing from `o` toward `p`, in fixed-point raw units, or
/// the zero vector when the two points coincide (so a degenerate distance
/// never divides by zero).
pub open spec fn dir_spec(p: Vec2i, o: Vec2i) -> (int, int) {
    let d = dist_spec(p, o);
    if d == 0 {
        (0, 0)
    } else {
        (
            div_trunc(((p.x - o.x) as int) * (SCALE as int), d),
            div_trunc(((p.y - o.y) as int) * (SCALE as int), d),
        )
    }
}

/// Executable unit direction from `o` toward `p`.
pub fn unit_toward(p: Vec2i, o: Vec2i) -> (u: (i64, i64))
    requires
        in_limits(p),
        in_limits(o),
    ensures
        (u.0 as int, u.1 as int) == dir_spec(p, o),
        -SCALE <= u.0 <= SCALE,
        -SCALE <= u.1 <= SCALE,
        p == o ==> u == (0i64, 0i64),
{
    let dx: i64 = p.x - o.x;
    let dy: i64 = p.y - o.y;
    let d: i64 = distance(p, o);
    proof {
        let sq = (dx as int) * (dx as int) + (dy as int) * (dy as int);
        assert((dx as int) * (dx as int) >= 0 && (dy as int) * (dy as int) >= 0 && (dx as int) * (
        dx as int) <= sq && (dy as int) * (dy as int) <= sq) by (nonlinear_arith)
            requires
                sq == (dx as int) * (dx as int) + (dy as int) * (dy as int),
        ;
        lemma_sqrt_floor_monotone((dx as int) * (dx as int), sq);
        lemma_sqrt_floor_monotone((dy as int) * (dy as int), sq);
        if dx >= 0 {
            lemma_sqrt_floor_square(dx as int);
        } else {
            assert((dx as int) * (dx as int) == (-dx as int) * (-dx as int)) by (nonlinear_arith);
            lemma_sqrt_floor_square(-dx as int);
        }
        if dy >= 0 {
            lemma_sqrt_floor_square(dy as int);
        } else {
            assert((dy as int) * (dy as int) == (-dy as int) * (-dy as int)) by (nonlinear_arith);
            lemma_sqrt_floor_square(-dy as int);
        }
    }
    if d == 0 {
        (0, 0)
    } else {
        let mx: i64 = dx * SCALE;
        let my: i64 = dy * SCALE;
        proof {
            assert(-(SCALE as int) * (d as int) <= mx as int <= (SCALE as int) * (d as int)
                && -(SCALE as int) * (d as int) <= my as int <= (SCALE as int) * (d as int))
                by (nonlinear_arith)
                requires
                    -(d as int) <= dx as int <= d as int,
                    -(d as int) <= dy as int <= d as int,
                    mx as int == (dx as int) * (SCALE as int),
                    my as int == (dy as int) * (SCALE as int),
                    SCALE == 100i64,
            ;
            lemma_div_trunc_bound(mx as int, d as int, SCALE as int);
            lemma_div_trunc_bound(my as int, d as int, SCALE as int);
        }
        let ux = div_trunc_i64(mx, d);
        let uy = div_trunc_i64(my, d);
        (ux, uy)
    }
}

/// Velocity contribution of one neighbor-list entry: zero for the particle
/// itself and for an identifier with no snapshot position (a stale grid
/// entry, skipped silently), and otherwise the kernel magnitude at the
/// snapshot distance, directed from the neighbor toward the particle.
pub open spec fn repulsion_of(
    id: usize,
    ppos: Vec2i,
    radius: int,
    data: Seq<Option<Vec2i>>,
    other: usize,
) -> (int, int) {
    if other == id {
        (0, 0)
    } else if (other as int) < data.len() {
        match data[other as int] {
            Some(opos) => {
                let mag = smooth_spec(dist_spec(ppos, opos), radius);
                let u = dir_spec(ppos, opos);
                (div_trunc(mag * u.0, SCALE as int), div_trunc(mag * u.1, SCALE as int))
            },
            None => (0, 0),
        }
    } else {
        (0, 0)
    }
}

/// Sum of the contributions of a neighbor list, front to back.
pub open spec fn total_repulsion(
    id: usize,
    ppos: Vec2i,
    radius: int,
    data: Seq<Option<Vec2i>>,
    others: Seq<usize>,
) -> (int, int)
    decreases others.len(),
{
    if others.len() == 0 {
        (0, 0)
    } else {
        let c = repulsion_of(id, ppos, radius, data, others[0]);
        let t = total_repulsion(id, ppos, radius, data, others.drop_first());
        (c.0 + t.0, c.1 + t.1)
    }
}

proof fn lemma_total_push(
    id: usize,
    ppos: Vec2i,
    radius: int,
    data: Seq<Option<Vec2i>>,
    s: Seq<usize>,
    x: usize,
)
    ensures
        total_repulsion(id, ppos, radius, data, s.push(x)) == (
            total_repulsion(id, ppos, radius, data, s).0 + repulsion_of(id, ppos, radius, data, x).0,
            total_repulsion(id, ppos, radius, data, s).1 + repulsion_of(id, ppos, radius, data, x).1,
        ),
    decreases s.len(),
{
    if s.len() == 0 {
        assert(s.push(x)[0] == x);
        assert(s.push(x).drop_first() =~= Seq::<usize>::empty());
        assert(total_repulsion(id, ppos, radius, data, Seq::<usize>::empty()) == (0int, 0int));
        assert(total_repulsion(id, ppos, radius, data, s.push(x)) == (
            repulsion_of(id, ppos, radius, data, x).0,
            repulsion_of(id, ppos, radius, data, x).1,
        ));
    } else {
        assert(s.push(x)[0] == s[0]);
        assert(s.push(x).drop_first() =~= s.drop_first().push(x));
        lemma_total_push(id, ppos, radius, data, s.drop_first(), x);
    }
}

proof fn lemma_total_take_step(
    id: usize,
    ppos: Vec2i,
    radius: int,
    data: Seq<Option<Vec2i>>,
    s: Seq<usize>,
    i: int,
)
    requires
        0 <= i < s.len(),
    ensures
        total_repulsion(id, ppos, radius, data, s.take(i + 1)) == (
            total_repulsion(id, ppos, radius, data, s.take(i)).0 + repulsion_of(
                id,
                ppos,
                radius,
                data,
                s[i],
            ).0,
            total_repulsion(id, ppos, radius, data, s.take(i)).1 + repulsion_of(
                id,
                ppos,
                radius,
                data,
                s[i],
            ).1,
        ),
{
    assert(s.take(i + 1) =~= s.take(i).push(s[i]));
    lemma_total_push(id, ppos, radius, data, s.take(i), s[i]);
}

proof fn lemma_total_remove(
    id: usize,
    ppos: Vec2i,
    radius: int,
    data: Seq<Option<Vec2i>>,
    s: Seq<usize>,
    i: int,
)
    requires
        0 <= i < s.len(),
    ensures
        total_repulsion(id, ppos, radius, data, s) == (
            total_repulsion(id, ppos, radius, data, s.remove(i)).0 + repulsion_of(
                id,
                ppos,
                radius,
                data,
                s[i],
            ).0,
            total_repulsion(id, ppos, radius, data, s.remove(i)).1 + repulsion_of(
                id,
                ppos,
                radius,
                data,
                s[i],
            ).1,
        ),
    decreases s.len(),
{
    if i == 0 {
        assert(s.remove(0) =~= s.drop_first());
    } else {
        assert(s.remove(i).drop_first() =~= s.drop_first().remove(i - 1));
        lemma_total_remove(id, ppos, radius, data, s.drop_first(), i - 1);
    }
}

/// The summed contribution of a neighbor list depends only on the multiset
/// of its entries, not on their order: integer addition is exact, so
/// reordering moves no rounding at all.
pub proof fn lemma_total_permutation(
    id: usize,
    ppos: Vec2i,
    radius: int,
    data: Seq<Option<Vec2i>>,
    s1: Seq<usize>,
    s2: Seq<usize>,
)
    requires
        s1.to_multiset() == s2.to_multiset(),
    ensures
        total_repulsion(id, ppos, radius, data, s1) == total_repulsion(id, ppos, radius, data, s2),
    decreases s1.len(),
{
    broadcast use vstd::seq_lib::group_to_multiset_ensures;

    if s1.len() == 0 {
        assert(s1.to_multiset().len() == s1.len());
        assert(s2.to_multiset().len() == s2.len());
        assert(s2.len() == 0);
    } else {
        let x = s1[0];
        assert(s1.contains(x));
        assert(s2.to_multiset().count(x) > 0);
        assert(s2.contains(x));
        let j = choose|j: int| 0 <= j < s2.len() && s2[j] == x;
        lemma_total_remove(id, ppos, radius, data, s2, j);
        assert(s1.remove(0) =~= s1.drop_first());
        assert(s1.drop_first().to_multiset() == s1.to_multiset().remove(x));
        assert(s2.remove(j).to_multiset() == s2.to_multiset().remove(x));
        lemma_total_permutation(id, ppos, radius, data, s1.drop_first(), s2.remove(j));
    }
}

/// The neighbor identifiers listed for a cell; an out-of-range cell
/// identifier reads as an empty list, so a grid with fewer cells than the
/// configuration announces is tolerated.
pub open spec fn cell_neighbors(grid: Seq<Vec<usize>>, cell: int) -> Seq<usize> {
    if 0 <= cell < grid.len() {
        grid[cell]@
    } else {
        Seq::empty()
    }
}

/// One particle's next state: explicit Euler translation with the pre-update
/// velocity, repulsion summed over the neighbors listed for the particle's
/// own cell, then elastic reflection independently on each axis.
pub open spec fn update_spec(
    id: usize,
    p: Particle,
    f: Fluid,
    h: int,
    grid: Seq<Vec<usize>>,
    data: Seq<Option<Vec2i>>,
) -> ((int, int), (int, int)) {
    let tx = p.position.x + div_trunc((p.velocity.x as int) * h, SCALE as int);
    let ty = p.position.y + div_trunc((p.velocity.y as int) * h, SCALE as int);
    let t = total_repulsion(
        id,
        p.position,
        f.radius as int,
        data,
        cell_neighbors(grid, f.cell_of(p.position)),
    );
    let vx = p.velocity.x + t.0;
    let vy = p.velocity.y + t.1;
    let rx = reflect_spec(tx, vx, f.bounds_min[0] as int, f.bounds_max[0] as int);
    let ry = reflect_spec(ty, vy, f.bounds_min[1] as int, f.bounds_max[1] as int);
    ((rx.0, ry.0), (rx.1, ry.1))
}

/// Computes a particle's next state from the per-tick snapshot. The result
/// is a function of the inputs alone; the returned position lies within the
/// configured bounds on both axes.
pub fn update_particle(
    id: usize,
    p: &Particle,
    f: &Fluid,
    h: i64,
    grid: &Vec<Vec<usize>>,
    data: &Vec<Option<Vec2i>>,
) -> (r: Particle)
    requires
        f.valid(),
        0 <= h <= H_LIMIT,
        in_limits(p.position),
        in_limits(p.velocity),
        forall|j: int|
            0 <= j < data@.len() ==> ((#[trigger] data@[j]) matches Some(q) ==> in_limits(q)),
        forall|c: int| 0 <= c < grid@.len() ==> (#[trigger] grid@[c])@.len() <= CELL_LIMIT,
    ensures
        r.position.x as int == update_spec(id, *p, *f, h as int, grid@, data@).0.0,
        r.position.y as int == update_spec(id, *p, *f, h as int, grid@, data@).0.1,
        r.velocity.x as int == update_spec(id, *p, *f, h as int, grid@, data@).1.0,
        r.velocity.y as int == update_spec(id, *p, *f, h as int, grid@, data@).1.1,
        f.bounds_min[0] <= r.position.x <= f.bounds_max[0],
        f.bounds_min[1] <= r.position.y <= f.bounds_max[1],
{
    let mut vx: i64 = p.velocity.x;
    let mut vy: i64 = p.velocity.y;
    let cell: usize = f.grid_idx(p);
    if cell < grid.len() {
        let list: &Vec<usize> = &grid[cell];
        let ghost os = list@;
        let n: usize = list.len();
        let mut i: usize = 0;
        while i < n
            invariant
                0 <= i <= n,
                n == os.len(),
                os.len() <= CELL_LIMIT,
                0 <= (cell as int) < grid@.len(),
                os == grid@[cell as int]@,
                list@ == os,
                f.valid(),
                in_limits(p.position),
                in_limits(p.velocity),
                forall|j: int|
                    0 <= j < data@.len() ==> ((#[trigger] data@[j]) matches Some(q) ==> in_limits(
                        q,
                    )),
                vx as int == p.velocity.x + total_repulsion(
                    id,
                    p.position,
                    f.radius as int,
                    data@,
                    os.take(i as int),
                ).0,
                vy as int == p.velocity.y + total_repulsion(
                    id,
                    p.position,
                    f.radius as int,
                    data@,
                    os.take(i as int),
                ).1,
                p.velocity.x - i * MAG_LIMIT <= vx as int <= p.velocity.x + i * MAG_LIMIT,
                p.velocity.y - i * MAG_LIMIT <= vy as int <= p.velocity.y + i * MAG_LIMIT,
            decreases n - i,
        {
            let oid: usize = list[i];
            proof {
                lemma_total_take_step(id, p.position, f.radius as int, data@, os, i as int);
            }
            if oid != id {
                if oid < data.len() {
                    match data[oid] {
                        Some(o) => {
                            let d: i64 = distance(p.position, o);
                            let mag: i64 = smooth(d, f.radius);
                            let u = unit_toward(p.position, o);
                            proof {
                                assert(-(MAG_LIMIT as int) * (SCALE as int) <= (mag as int) * (
                                u.0 as int) <= (MAG_LIMIT as int) * (SCALE as int) && -(
                                MAG_LIMIT as int) * (SCALE as int) <= (mag as int) * (u.1 as int)
                                    <= (MAG_LIMIT as int) * (SCALE as int)) by (nonlinear_arith)
                                    requires
                                        0 <= mag <= MAG_LIMIT,
                                        -SCALE <= u.0 <= SCALE,
                                        -SCALE <= u.1 <= SCALE,
                                ;
                                lemma_div_trunc_bound(
                                    (mag as int) * (u.0 as int),
                                    SCALE as int,
                                    MAG_LIMIT as int,
                                );
                                lemma_div_trunc_bound(
                                    (mag as int) * (u.1 as int),
                                    SCALE as int,
                                    MAG_LIMIT as int,
                                );
                            }
                            let cx: i64 = fp_mul(mag, u.0);
                            let cy: i64 = fp_mul(mag, u.1);
                            vx = vx + cx;
                            vy = vy + cy;
                        },
                        None => {},
                    }
                }
            }
            i = i + 1;
        }
        proof {
            assert(os.take(n as int) =~= os);
        }
    } else {
        proof {
            assert(cell_neighbors(grid@, cell as int) =~= Seq::<usize>::empty());
        }
    }
    proof {
        assert(-(i64::MAX as int) * (SCALE as int) <= (p.velocity.x as int) * (h as int) <= (
        i64::MAX as int) * (SCALE as int) && -(i64::MAX as int) * (SCALE as int) <= (
        p.velocity.y as int) * (h as int) <= (i64::MAX as int) * (SCALE as int)
            && -(10_000_000_000_000_000int * 100) <= (p.velocity.x as int) * (h as int)
            <= 10_000_000_000_000_000int * 100 && -(10_000_000_000_000_000int * 100) <= (
        p.velocity.y as int) * (h as int) <= 10_000_000_000_000_000int * 100) by (nonlinear_arith)
            requires
                -POS_LIMIT <= p.velocity.x <= POS_LIMIT,
                0 <= h <= H_LIMIT,
                -POS_LIMIT <= p.velocity.y <= POS_LIMIT,
                POS_LIMIT == 1_000_000_000_000i64,
                H_LIMIT == 1_000_000i64,
        ;
        lemma_div_trunc_bound(
            (p.velocity.x as int) * (h as int),
            SCALE as int,
            10_000_000_000_000_000int,
        );
        lemma_div_trunc_bound(
            (p.velocity.y as int) * (h as int),
            SCALE as int,
            10_000_000_000_000_000int,
        );
    }
    let hx: i64 = fp_mul(p.velocity.x, h);
    let hy: i64 = fp_mul(p.velocity.y, h);
    let x0x: i64 = p.position.x + hx;
    let x0y: i64 = p.position.y + hy;
    let rx = constrain_1d(x0x, vx, f.bounds_min[0], f.bounds_max[0]);
    let ry = constrain_1d(x0y, vy, f.bounds_min[1], f.bounds_max[1]);
    Particle {
        position: Vec2i { x: rx.0, y: ry.0 },
        velocity: Vec2i { x: rx.1, y: ry.1 },
    }
}

/// With no neighbors listed for the particle's cell — in particular with an
/// empty grid — the update reduces to a pure translation followed by
/// boundary reflection; and when the translated position lies within the
/// bounds, the position is exactly the translation and the velocity is
/// unchanged.
pub proof fn lemma_update_empty_translation(
    id: usize,
    p: Particle,
    f: Fluid,
    h: int,
    grid: Seq<Vec<usize>>,
    data: Seq<Option<Vec2i>>,
)
    requires
        cell_neighbors(grid, f.cell_of(p.position)).len() == 0,
    ensures
        ({
            let tx = p.position.x + div_trunc((p.velocity.x as int) * h, SCALE as int);
            let ty = p.position.y + div_trunc((p.velocity.y as int) * h, SCALE as int);
            update_spec(id, p, f, h, grid, data) == (
                (
                    reflect_spec(tx, p.velocity.x as int, f.bounds_min[0] as int, f.bounds_max[0] as int).0,
                    reflect_spec(ty, p.velocity.y as int, f.bounds_min[1] as int, f.bounds_max[1] as int).0,
                ),
                (
                    reflect_spec(tx, p.velocity.x as int, f.bounds_min[0] as int, f.bounds_max[0] as int).1,
                    reflect_spec(ty, p.velocity.y as int, f.bounds_min[1] as int, f.bounds_max[1] as int).1,
                ),
            )
        }),
        ({
            let tx = p.position.x + div_trunc((p.velocity.x as int) * h, SCALE as int);
            let ty = p.position.y + div_trunc((p.velocity.y as int) * h, SCALE as int);
            (f.bounds_min[0] <= tx <= f.bounds_max[0] && f.bounds_min[1] <= ty <= f.bounds_max[1])
                ==> update_spec(id, p, f, h, grid, data) == (
                (tx, ty),
                (p.velocity.x as int, p.velocity.y as int),
            )
        }),
{
    assert(total_repulsion(
        id,
        p.position,
        f.radius as int,
        data,
        cell_neighbors(grid, f.cell_of(p.position)),
    ) == (0int, 0int));
}

/// Permutation invariance: reordering the neighbor list of the particle's
/// cell — keeping the same entries with the same multiplicities — does not
/// change the result of the update at all.
pub proof fn lemma_update_permutation(
    id: usize,
    p: Particle,
    f: Fluid,
    h: int,
    grid1: Seq<Vec<usize>>,
    grid2: Seq<Vec<usize>>,
    data: Seq<Option<Vec2i>>,
)
    requires
        cell_neighbors(grid1, f.cell_of(p.position)).to_multiset() == cell_neighbors(
            grid2,
            f.cell_of(p.position),
        ).to_multiset(),
    ensures
        update_spec(id, p, f, h, grid1, data) == update_spec(id, p, f, h, grid2, data),
{
    lemma_total_permutation(
        id,
        p.position,
        f.radius as int,
        data,
        cell_neighbors(grid1, f.cell_of(p.position)),
        cell_neighbors(grid2, f.cell_of(p.position)),
    );
}

} // verus!
