use fluid_core::fixed::{div_trunc_i64, fp_mul, isqrt};
use fluid_core::kernel::smooth;
use fluid_core::simulation::{constrain_1d, distance, unit_toward, update_particle};
use fluid_core::types::{Fluid, Particle, Vec2i};

// All raw values carry the fixed-point scale of 100 raw units per world unit.

fn bench_fluid() -> Fluid {
    Fluid {
        n: 0,
        radius: 100,
        speed: 0,
        grid_dims: [1, 1],
        bounds_min: [-50_000, -30_000],
        bounds_max: [50_000, 30_000],
    }
}

#[test]
fn test_constrain_1d() {
    assert_eq!(constrain_1d(-300, -100, -200, 200), (-200, 100));
    assert_eq!(constrain_1d(300, -100, -200, 200), (200, 100));
    assert_eq!(constrain_1d(0, -100, -200, 200), (0, -100));
}

/// position, velocity before (4 raw scalars),
/// then position, velocity after (4 raw scalars),
fn test_update_particle_helper(ps: &[i64; 8], f: &Fluid, h: i64) {
    let before = Particle {
        position: Vec2i { x: ps[0], y: ps[1] },
        velocity: Vec2i { x: ps[2], y: ps[3] },
    };

    let after = Particle {
        position: Vec2i { x: ps[4], y: ps[5] },
        velocity: Vec2i { x: ps[6], y: ps[7] },
    };

    let grid: Vec<Vec<usize>> = vec![];
    let data: Vec<Option<Vec2i>> = vec![];

    assert_eq!(update_particle(0, &before, f, h, &grid, &data), after);
}

#[test]
fn test_update_particle() {
    let fluid = bench_fluid();

    let no_collision = [0, 0, 200, 200, 20, 20, 200, 200];
    test_update_particle_helper(&no_collision, &fluid, 10);

    let collision = [-49_000, 29_000, -20_000, 20_000, -50_000, 30_000, 20_000, -20_000];
    test_update_particle_helper(&collision, &fluid, 10);
}

#[test]
fn test_fluid_new_validates() {
    let good = Fluid::new(8, 100, 50, [10, 6], [-50_000, -30_000], [50_000, 30_000]);
    let f = good.expect("a well-formed configuration is accepted");
    assert_eq!(f.n, 8);
    assert_eq!(f.radius, 100);
    assert_eq!(f.speed, 50);
    assert_eq!(f.grid_dims, [10, 6]);
    assert_eq!(f.bounds_min, [-50_000, -30_000]);
    assert_eq!(f.bounds_max, [50_000, 30_000]);

    // Non-positive radius.
    assert!(Fluid::new(8, 0, 50, [10, 6], [-50_000, -30_000], [50_000, 30_000]).is_none());
    // Radius beyond the representable range.
    assert!(Fluid::new(8, 25_001, 50, [10, 6], [-50_000, -30_000], [50_000, 30_000]).is_none());
    // Degenerate grid.
    assert!(Fluid::new(8, 100, 50, [0, 6], [-50_000, -30_000], [50_000, 30_000]).is_none());
    // Degenerate bounds on the second axis.
    assert!(Fluid::new(8, 100, 50, [10, 6], [-50_000, 30_000], [50_000, 30_000]).is_none());
}

#[test]
fn test_smooth_exact_values() {
    // radius 1.0: 2000 / (pi * 1^2) ~= 636.62 world units, 63661 raw with
    // pi taken as 355/113.
    assert_eq!(smooth(0, 100), 63_661);
    // radius 5.0, distance 3.0: (2000/pi) * (25-9)^3 / 5^8 ~= 6.675.
    assert_eq!(smooth(300, 500), 667);
}

#[test]
fn test_smooth_zero_beyond_radius() {
    assert_eq!(smooth(100, 100), 0);
    assert_eq!(smooth(101, 100), 0);
    assert_eq!(smooth(5_000, 100), 0);
    assert_eq!(smooth(500, 500), 0);
}

#[test]
fn test_smooth_monotone_samples() {
    let r = 500;
    let samples = [0, 100, 200, 300, 400, 499, 500, 600];
    for w in samples.windows(2) {
        assert!(smooth(w[0], r) >= smooth(w[1], r));
    }
    assert!(smooth(0, r) > 0);
}

#[test]
fn test_grid_idx_cells() {
    let f = Fluid::new(8, 100, 0, [10, 6], [-50_000, -30_000], [50_000, 30_000]).unwrap();
    let at = |x: i64, y: i64| Particle {
        position: Vec2i { x, y },
        velocity: Vec2i { x: 0, y: 0 },
    };
    // Center of the space: cell (5, 3).
    assert_eq!(f.grid_idx(&at(0, 0)), 35);
    // Lower corner: cell (0, 0).
    assert_eq!(f.grid_idx(&at(-50_000, -30_000)), 0);
    // Upper corner folds into the last cell.
    assert_eq!(f.grid_idx(&at(50_000, 30_000)), 59);
    // Out-of-bounds positions clamp to the edge cells.
    assert_eq!(f.grid_idx(&at(60_000, -40_000)), 9);
}

#[test]
fn test_distance_values() {
    let a = Vec2i { x: 0, y: 0 };
    let b = Vec2i { x: 300, y: 400 };
    assert_eq!(distance(a, b), 500);
    // Rounded down: sqrt(20000) ~= 141.42.
    assert_eq!(distance(a, Vec2i { x: 100, y: 100 }), 141);
    assert_eq!(distance(a, a), 0);
}

#[test]
fn test_unit_toward_values() {
    let p = Vec2i { x: 0, y: 0 };
    let o = Vec2i { x: 300, y: 400 };
    // A unit vector carries the scale: (-0.6, -0.8) is (-60, -80) raw.
    assert_eq!(unit_toward(p, o), (-60, -80));
    // Coinciding points give the zero vector rather than a division error.
    assert_eq!(unit_toward(p, p), (0, 0));
}

#[test]
fn test_update_single_neighbor() {
    let f = Fluid::new(2, 500, 0, [1, 1], [-50_000, -30_000], [50_000, 30_000]).unwrap();
    let p = Particle {
        position: Vec2i { x: 0, y: 0 },
        velocity: Vec2i { x: 0, y: 0 },
    };
    let grid: Vec<Vec<usize>> = vec![vec![1]];
    let data: Vec<Option<Vec2i>> = vec![
        Some(Vec2i { x: 0, y: 0 }),
        Some(Vec2i { x: 300, y: 0 }),
    ];
    let r = update_particle(0, &p, &f, 0, &grid, &data);
    // Magnitude smooth(300, 500) = 667, directed away from the neighbor.
    assert_eq!(r.position, Vec2i { x: 0, y: 0 });
    assert_eq!(r.velocity, Vec2i { x: -667, y: 0 });
}

#[test]
fn test_update_permutation_of_neighbors() {
    let f = Fluid::new(3, 500, 0, [1, 1], [-50_000, -30_000], [50_000, 30_000]).unwrap();
    let p = Particle {
        position: Vec2i { x: 0, y: 0 },
        velocity: Vec2i { x: 100, y: -100 },
    };
    let data: Vec<Option<Vec2i>> = vec![
        Some(Vec2i { x: 0, y: 0 }),
        Some(Vec2i { x: 300, y: 0 }),
        Some(Vec2i { x: 0, y: 400 }),
    ];
    let grid_a: Vec<Vec<usize>> = vec![vec![1, 2]];
    let grid_b: Vec<Vec<usize>> = vec![vec![2, 1]];
    let ra = update_particle(0, &p, &f, 10, &grid_a, &data);
    let rb = update_particle(0, &p, &f, 10, &grid_b, &data);
    assert_eq!(ra, rb);
}

#[test]
fn test_update_degenerate_distance() {
    let f = Fluid::new(2, 500, 0, [1, 1], [-50_000, -30_000], [50_000, 30_000]).unwrap();
    let p = Particle {
        position: Vec2i { x: 700, y: 700 },
        velocity: Vec2i { x: 200, y: 200 },
    };
    // A neighbor at the identical position contributes the zero vector.
    let grid: Vec<Vec<usize>> = vec![vec![1]];
    let data: Vec<Option<Vec2i>> = vec![
        Some(Vec2i { x: 700, y: 700 }),
        Some(Vec2i { x: 700, y: 700 }),
    ];
    let r = update_particle(0, &p, &f, 10, &grid, &data);
    assert_eq!(r.position, Vec2i { x: 720, y: 720 });
    assert_eq!(r.velocity, Vec2i { x: 200, y: 200 });
}

#[test]
fn test_update_skips_self_and_stale_entries() {
    let f = Fluid::new(2, 500, 0, [1, 1], [-50_000, -30_000], [50_000, 30_000]).unwrap();
    let p = Particle {
        position: Vec2i { x: 0, y: 0 },
        velocity: Vec2i { x: 100, y: 0 },
    };
    // The cell lists the particle itself, an identifier with no snapshot
    // entry, and one past the snapshot's length: all are skipped.
    let grid: Vec<Vec<usize>> = vec![vec![0, 1, 7]];
    let data: Vec<Option<Vec2i>> = vec![Some(Vec2i { x: 0, y: 0 }), None];
    let r = update_particle(0, &p, &f, 10, &grid, &data);
    assert_eq!(r.position, Vec2i { x: 10, y: 0 });
    assert_eq!(r.velocity, Vec2i { x: 100, y: 0 });
}

#[test]
fn test_fixed_point_helpers() {
    // Truncation toward zero on both signs.
    assert_eq!(fp_mul(250, 10), 25);
    assert_eq!(fp_mul(-250, 10), -25);
    assert_eq!(fp_mul(199, 1), 1);
    assert_eq!(fp_mul(-199, 1), -1);
    assert_eq!(div_trunc_i64(-7, 2), -3);
    assert_eq!(div_trunc_i64(7, 2), 3);
    assert_eq!(isqrt(0), 0);
    assert_eq!(isqrt(8), 2);
    assert_eq!(isqrt(9), 3);
    assert_eq!(isqrt(250_000), 500);
}
