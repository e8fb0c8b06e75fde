use sandgrid::grid::SandGrid;

fn count_occupied(g: &SandGrid) -> usize {
    let mut n: usize = 0;
    for y in 0..g.get_height() {
        for x in 0..g.get_width() {
            if g.is_occupied(x, y) {
                n += 1;
            }
        }
    }
    n
}

#[test]
fn conservation_across_steps() {
    let mut g = SandGrid::new(6, 5);
    g.spawn_sand_at(0, 0);
    g.spawn_sand_at(3, 1);
    g.spawn_sand_at(5, 2);
    g.spawn_sand_at(2, 4);
    assert_eq!(count_occupied(&g), 4);
    for dt in [0u32, 16, 250, 1000, 3] {
        g.simulate(dt);
        assert_eq!(count_occupied(&g), 4);
    }
}

#[test]
fn spawn_only_adds_and_is_idempotent() {
    let mut g = SandGrid::new(3, 3);
    g.spawn_sand_at(1, 2);
    assert_eq!(count_occupied(&g), 1);
    // Spawning onto an occupied cell only re-seeds it.
    g.spawn_sand_at(1, 2);
    assert_eq!(count_occupied(&g), 1);
    assert_eq!(g.get_velocity(1, 2), 1_000_000);
    g.spawn_sand_at(0, 0);
    assert_eq!(count_occupied(&g), 2);
}

#[test]
fn floor_row_never_empties() {
    let mut g = SandGrid::new(4, 4);
    for x in 0..4 {
        g.spawn_sand_at(x, 3);
    }
    g.spawn_sand_at(1, 0);
    for _ in 0..6 {
        g.simulate(500);
        for x in 0..4 {
            assert!(g.is_occupied(x, 3));
        }
    }
}

#[test]
fn cascade_moves_each_particle_once() {
    // A column of two particles: the lower one falls first, and the
    // upper one then falls into the vacated cell, all in one step.
    let mut g = SandGrid::new(1, 4);
    g.spawn_sand_at(0, 0);
    g.spawn_sand_at(0, 1);
    g.simulate(0);
    assert!(!g.is_occupied(0, 0));
    assert!(g.is_occupied(0, 1));
    assert!(g.is_occupied(0, 2));
    assert!(!g.is_occupied(0, 3));
    // Each particle fell exactly one row: velocities were untouched by
    // the zero-length interval.
    assert_eq!(g.get_velocity(0, 1), 1_000_000);
    assert_eq!(g.get_velocity(0, 2), 1_000_000);
}

#[test]
fn swap_moves_color_and_velocity_together() {
    let mut g = SandGrid::new(10, 10);
    g.spawn_sand_at(5, 0);
    assert_eq!(g.get_color().get_pixel(5, 0), (0, 255, 255, 255));
    g.simulate(1000);
    // The particle integrated to 10.81 cells/s and fell to row 8
    // (the scan stops one short of the floor on a long fall).
    assert!(!g.is_occupied(5, 0));
    assert!(g.is_occupied(5, 8));
    assert_eq!(g.get_velocity(5, 8), 10_810_000);
    // Its repainted color moved with it: red channel saturated at 255.
    assert_eq!(g.get_color().get_pixel(5, 8), (255, 0, 0, 255));
    // The vacated cell received the background color that was at
    // (5, 8): red 5*255/10, green (8*510+10)/20, blue and alpha 255.
    assert_eq!(g.get_color().get_pixel(5, 0), (127, 204, 255, 255));
}

#[test]
fn threshold_is_strict_at_one_cell_per_second() {
    // A fresh spawn has exactly the threshold velocity, so even a
    // zero-length step lets it fall one row, with no velocity gained.
    let mut g = SandGrid::new(3, 3);
    g.spawn_sand_at(1, 0);
    g.simulate(0);
    assert!(!g.is_occupied(1, 0));
    assert!(g.is_occupied(1, 1));
    assert_eq!(g.get_velocity(1, 1), 1_000_000);
}

#[test]
fn settling_when_fully_blocked() {
    let mut g = SandGrid::new(4, 4);
    for x in 0..4 {
        g.spawn_sand_at(x, 3);
    }
    g.spawn_sand_at(1, 2);
    g.spawn_sand_at(2, 2);
    g.simulate(100);
    // Both fallers are blocked below and on both diagonals: they stay
    // exactly in place while their velocities accumulate.
    assert!(g.is_occupied(1, 2));
    assert!(g.is_occupied(2, 2));
    assert_eq!(g.get_velocity(1, 2), 1_981_000);
    assert_eq!(g.get_velocity(2, 2), 1_981_000);
    assert_eq!(count_occupied(&g), 6);
    // The repainted red channel encodes the new velocity:
    // round(0.1981 * 255) = 51.
    assert_eq!(g.get_color().get_pixel(1, 2), (51, 0, 0, 255));
}

#[test]
fn grid_edges_act_as_solid_walls() {
    let mut g = SandGrid::new(2, 3);
    g.spawn_sand_at(0, 2);
    g.spawn_sand_at(1, 2);
    g.spawn_sand_at(0, 1);
    g.spawn_sand_at(1, 1);
    g.simulate(1000);
    // Neither edge cell wraps around or escapes: both settle.
    assert!(g.is_occupied(0, 1));
    assert!(g.is_occupied(1, 1));
    assert!(g.is_occupied(0, 2));
    assert!(g.is_occupied(1, 2));
    assert_eq!(count_occupied(&g), 4);
}

#[test]
fn diagonal_prefers_left_over_right() {
    // Blocked straight below with both diagonals free: the particle
    // slides down-left, never down-right.
    let mut g = SandGrid::new(3, 3);
    g.spawn_sand_at(1, 2);
    g.spawn_sand_at(1, 1);
    g.simulate(0);
    assert!(g.is_occupied(0, 2));
    assert!(!g.is_occupied(2, 2));
    assert!(!g.is_occupied(1, 1));

    // With the left diagonal also blocked, it slides down-right.
    let mut h = SandGrid::new(3, 3);
    h.spawn_sand_at(1, 2);
    h.spawn_sand_at(0, 2);
    h.spawn_sand_at(1, 1);
    h.simulate(0);
    assert!(h.is_occupied(2, 2));
    assert!(!h.is_occupied(1, 1));
}

#[test]
fn velocity_saturates_at_cap() {
    // An enormous interval drives the integration into the cap
    // instead of overflowing.
    let mut g = SandGrid::new(2, 2);
    g.spawn_sand_at(0, 0);
    g.simulate(u32::MAX);
    assert!(g.is_occupied(0, 1));
    assert_eq!(g.get_velocity(0, 1), 1_000_000_000_000);
    // The red channel clamps at full brightness.
    assert_eq!(g.get_color().get_pixel(0, 1), (255, 0, 0, 255));
}

#[test]
fn deterministic_repeated_runs() {
    let spawns = [(0usize, 0usize), (3, 2), (7, 1), (4, 5)];
    let dts = [0u32, 16, 250, 1000, 3];
    let mut a = SandGrid::new(8, 6);
    let mut b = SandGrid::new(8, 6);
    for (x, y) in spawns {
        a.spawn_sand_at(x, y);
        b.spawn_sand_at(x, y);
    }
    for dt in dts {
        a.simulate(dt);
        b.simulate(dt);
        assert_eq!(a.get_color().get_pixels(), b.get_color().get_pixels());
        for y in 0..6 {
            for x in 0..8 {
                assert_eq!(a.is_occupied(x, y), b.is_occupied(x, y));
                assert_eq!(a.get_velocity(x, y), b.get_velocity(x, y));
            }
        }
    }
}

#[test]
fn single_grain_reaches_floor_and_rests() {
    let mut g = SandGrid::new(10, 10);
    g.spawn_sand_at(5, 0);
    assert_eq!(g.get_velocity(5, 0), 1_000_000);

    // First second: velocity 1.0 + 9.81 = 10.81 cells/s, an eleven-row
    // fall clamped by the scan to the row just above the floor.
    g.simulate(1000);
    assert!(g.is_occupied(5, 8));
    assert_eq!(g.get_velocity(5, 8), 10_810_000);

    // Second second: 20.62 cells/s, and the particle lands on the
    // floor row.
    g.simulate(1000);
    assert!(g.is_occupied(5, 9));
    assert_eq!(g.get_velocity(5, 9), 20_620_000);

    // On the floor it rests: the position stays and the velocity
    // stabilizes, because floor cells are not integrated.
    for _ in 0..5 {
        g.simulate(1000);
        assert!(g.is_occupied(5, 9));
        assert_eq!(g.get_velocity(5, 9), 20_620_000);
    }
    assert_eq!(count_occupied(&g), 1);
}

#[test]
fn fresh_grid_shows_background_gradient() {
    let g = SandGrid::new(10, 10);
    assert_eq!(count_occupied(&g), 0);
    assert_eq!(g.get_color().get_pixel(0, 0), (0, 0, 255, 255));
    assert_eq!(g.get_color().get_pixel(9, 0), (229, 0, 255, 255));
    assert_eq!(g.get_color().get_pixel(0, 9), (0, 230, 255, 255));
    assert_eq!(g.get_color().get_pixels().len(), 400);
}
