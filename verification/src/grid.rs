//! The grid simulator: falling granular material on a fixed-size 2D
//! grid of cells, each holding an occupancy flag, a vertical velocity
//! and an RGBA color sample.
//!
//! All physical quantities are fixed-point integers so that every step
//! of the simulation is exactly specified:
//! - velocity is measured in micro-cells per second
//!   ([`MICRO_PER_CELL`] units equal one grid cell per second);
//! - elapsed time is measured in whole milliseconds;
//! - gravity adds [`GRAVITY_MICRO_PER_MS`] micro-cells per second for
//!   every elapsed millisecond, which is 9.81 cells per second squared.
//!
//! Velocity saturates at [`VELOCITY_CAP`] instead of growing without
//! bound; the cap is far beyond any displacement a grid could show.

use vstd::prelude::*;

use crate::primitives::lemma_pixel_index_bounds;
use crate::primitives::spec_set_pixel;
use crate::primitives::CpuTexture;
use crate::primitives::TextureView;
use crate::utils::new_texture;
use crate::utils::spec_background;

verus! {

/// Micro-cells per second gained per millisecond of elapsed time:
/// the gravitational acceleration of 9.81 cells per second squared.
pub const GRAVITY_MICRO_PER_MS: u64 = 9810;

/// Fixed-point scale: velocity units per one grid cell per second.
pub const MICRO_PER_CELL: u64 = 1000000;

/// Half of [`MICRO_PER_CELL`], used to round velocities to whole cells.
pub const HALF_CELL: u64 = 500000;

/// The vertical speed seeded into a freshly spawned cell: one cell
/// per second.
pub const SPAWN_VELOCITY: u64 = 1000000;

/// Below one cell per second a particle accumulates velocity but does
/// not move.
pub const FALL_THRESHOLD: u64 = 1000000;

/// Velocities saturate here (one million cells per second) so that
/// integration can never overflow.
pub const VELOCITY_CAP: u64 = 1000000000000;

/// The mathematical state of a grid: dimensions and the three parallel
/// per-cell arrays, all indexed by `y * width + x`, with `y` growing
/// downward.  The color array holds four bytes per cell.
#[verifier::ext_equal]
pub ghost struct GridView {
    pub width: nat,
    pub height: nat,
    pub occupied: Seq<u8>,
    pub velocity: Seq<u64>,
    pub color: Seq<u8>,
}

/// A well-formed grid: nonempty, small enough to address, and with the
/// three arrays of matching lengths.
pub open spec fn grid_wf(g: GridView) -> bool {
    &&& 1 <= g.width
    &&& 1 <= g.height
    &&& 4 * (g.width * g.height) <= usize::MAX
    &&& g.occupied.len() == g.width * g.height
    &&& g.velocity.len() == g.width * g.height
    &&& g.color.len() == 4 * (g.width * g.height)
}

/// The flat index of cell `(x, y)`.
pub open spec fn cell_index(g: GridView, x: int, y: int) -> int {
    y * g.width + x
}

/// Whether cell `(x, y)` holds solid material.
pub open spec fn solid_at(g: GridView, x: int, y: int) -> bool {
    g.occupied[cell_index(g, x, y)] != 0
}

/// One velocity integration step: `v + 9.81 * dt`, saturated at
/// [`VELOCITY_CAP`].
pub open spec fn spec_integrate(v: u64, dt: u32) -> u64 {
    if v + GRAVITY_MICRO_PER_MS * dt > VELOCITY_CAP {
        VELOCITY_CAP
    } else {
        (v + GRAVITY_MICRO_PER_MS * dt) as u64
    }
}

/// The whole number of cells a velocity carries a particle in one
/// step: the velocity in cells per second, rounded to nearest.
pub open spec fn spec_displacement(v2: u64) -> int {
    (v2 + HALF_CELL) / (MICRO_PER_CELL as int)
}

/// The red channel encoding a velocity: the fraction of ten cells per
/// second, clamped to one, scaled to 255 and rounded to nearest.
pub open spec fn spec_red(v2: u64) -> u8 {
    let c = if v2 > 10 * MICRO_PER_CELL {
        (10 * MICRO_PER_CELL) as int
    } else {
        v2 as int
    };
    ((c * 510 + 10 * (MICRO_PER_CELL as int)) / (20 * (MICRO_PER_CELL as int))) as u8
}

/// Exchanging the four color bytes of cell indices `i` and `j`.
pub open spec fn swap_color_blocks(c: Seq<u8>, i: int, j: int) -> Seq<u8> {
    c.update(4 * j, c[4 * i]).update(4 * j + 1, c[4 * i + 1]).update(
        4 * j + 2,
        c[4 * i + 2],
    ).update(4 * j + 3, c[4 * i + 3]).update(4 * i, c[4 * j]).update(
        4 * i + 1,
        c[4 * j + 1],
    ).update(4 * i + 2, c[4 * j + 2]).update(4 * i + 3, c[4 * j + 3])
}

/// Exchanging occupancy, velocity and color of cell indices `i` and
/// `j` as one unit.
pub open spec fn spec_swap(g: GridView, i: int, j: int) -> GridView {
    GridView {
        occupied: g.occupied.update(i, g.occupied[j]).update(j, g.occupied[i]),
        velocity: g.velocity.update(i, g.velocity[j]).update(j, g.velocity[i]),
        color: swap_color_blocks(g.color, i, j),
        ..g
    }
}

/// The collision scan below a falling cell: starting at row `yb` with
/// `cur` as the last row confirmed empty, walk down to `y_target`,
/// stopping at the floor row or the first occupied row.
pub open spec fn spec_scan(g: GridView, x: int, yb: int, y_target: int, cur: int) -> int
    decreases y_target + 1 - yb,
{
    if yb > y_target {
        cur
    } else if yb == g.height - 1 {
        cur
    } else if solid_at(g, x, yb) {
        cur
    } else {
        spec_scan(g, x, yb + 1, y_target, yb)
    }
}

/// The swap destination, if any, chosen while cell `(x, y)` is
/// processed on grid `g`: straight down to the last unobstructed row,
/// else diagonally (left checked before right), else none (the
/// particle settles).  Floor cells, empty cells and cells below the
/// fall threshold choose no destination.
pub open spec fn cell_dest(g: GridView, dt: u32, x: int, y: int) -> Option<int> {
    if !solid_at(g, x, y) || y == g.height - 1 {
        None
    } else {
        let v2 = spec_integrate(g.velocity[cell_index(g, x, y)], dt);
        if v2 < FALL_THRESHOLD {
            None
        } else {
            let disp = spec_displacement(v2);
            let y_target = if y + disp >= g.height - 1 {
                g.height - 1
            } else {
                y + disp
            };
            let ytc = spec_scan(g, x, y + 1, y_target, y + 1);
            if !solid_at(g, x, ytc) {
                Some(cell_index(g, x, ytc))
            } else if x > 0 && !solid_at(g, x - 1, ytc) {
                Some(cell_index(g, x - 1, ytc))
            } else if x + 1 < g.width && !solid_at(g, x + 1, ytc) {
                Some(cell_index(g, x + 1, ytc))
            } else {
                None
            }
        }
    }
}

/// Processing one cell: empty cells and floor cells are left alone;
/// any other solid cell integrates its velocity, repaints itself, and
/// then swaps into its destination if [`cell_dest`] chose one.
pub open spec fn step_cell(g: GridView, dt: u32, x: int, y: int) -> GridView {
    if !solid_at(g, x, y) || y == g.height - 1 {
        g
    } else {
        let i = cell_index(g, x, y);
        let v2 = spec_integrate(g.velocity[i], dt);
        let g1 = GridView {
            velocity: g.velocity.update(i, v2),
            color: spec_set_pixel(g.color, g.width as int, x, y, spec_red(v2), 0, 0, 255),
            ..g
        };
        match cell_dest(g, dt, x, y) {
            None => g1,
            Some(j) => spec_swap(g1, i, j),
        }
    }
}

/// The grid after the first `x` cells of row `y` have been processed,
/// left to right.
pub open spec fn cols_done(g: GridView, dt: u32, y: int, x: int) -> GridView
    decreases x,
{
    if x <= 0 {
        g
    } else {
        step_cell(cols_done(g, dt, y, x - 1), dt, x - 1, y)
    }
}

/// The grid after all rows from the bottom up to and including row `y`
/// have been processed.
pub open spec fn rows_done(g: GridView, dt: u32, y: int) -> GridView
    decreases g.height - y,
{
    if y >= g.height {
        g
    } else {
        cols_done(rows_done(g, dt, y + 1), dt, y, g.width as int)
    }
}

/// One full simulation step over `dt` milliseconds: rows from bottom
/// to top, columns left to right.
pub open spec fn spec_step(g: GridView, dt: u32) -> GridView {
    rows_done(g, dt, 0)
}

/// Depositing material at `(x, y)`: the cell becomes occupied with the
/// seed velocity and the cyan spawn color.
pub open spec fn spec_spawn(g: GridView, x: int, y: int) -> GridView {
    let i = cell_index(g, x, y);
    GridView {
        occupied: g.occupied.update(i, 1u8),
        velocity: g.velocity.update(i, SPAWN_VELOCITY),
        color: spec_set_pixel(g.color, g.width as int, x, y, 0, 255, 255, 255),
        ..g
    }
}

/// A freshly created grid: every cell empty with zero velocity, the
/// color buffer showing the background gradient.
pub open spec fn spec_new_grid(w: int, h: int) -> GridView {
    GridView {
        width: w as nat,
        height: h as nat,
        occupied: Seq::new((w * h) as nat, |i: int| 0u8),
        velocity: Seq::new((w * h) as nat, |i: int| 0u64),
        color: spec_background(w, h),
    }
}

/// The flat index of an in-bounds cell stays below `width * height`.
pub proof fn lemma_cell_index_bounds(g: GridView, x: int, y: int)
    by (nonlinear_arith)
    requires
        0 <= x < g.width,
        0 <= y < g.height,
    ensures
        0 <= cell_index(g, x, y) < g.width * g.height,
        cell_index(g, x, y) == y * g.width + x,
{
}

/// Distinct in-bounds cells map to distinct flat indices.
pub proof fn lemma_cell_index_injective(g: GridView, x1: int, y1: int, x2: int, y2: int)
    by (nonlinear_arith)
    requires
        0 <= x1 < g.width,
        0 <= y1 < g.height,
        0 <= x2 < g.width,
        0 <= y2 < g.height,
        x1 != x2 || y1 != y2,
    ensures
        cell_index(g, x1, y1) != cell_index(g, x2, y2),
{
}

/// The grid simulator.  It owns the full simulation state: three
/// parallel per-cell arrays addressed by `y * width + x`.
pub struct SandGrid {
    width: usize,
    height: usize,
    meta: Vec<u8>,
    color: CpuTexture,
    velocity: Vec<u64>,
}

impl View for SandGrid {
    type V = GridView;

    closed spec fn view(&self) -> GridView {
        GridView {
            width: self.width as nat,
            height: self.height as nat,
            occupied: self.meta@,
            velocity: self.velocity@,
            color: self.color@.data,
        }
    }
}

impl SandGrid {
    /// The abstract state is well formed and the color buffer's own
    /// dimensions agree with the grid's.
    pub open spec fn wf(self) -> bool {
        &&& grid_wf(self@)
        &&& self.color_view().width == self@.width
        &&& self.color_view().height == self@.height
    }

    /// The view of the owned color buffer.
    pub closed spec fn color_view(self) -> TextureView {
        self.color@
    }

    /// Creates a grid with every cell empty, zero velocity, and the
    /// background gradient in the color buffer.
    pub fn new(width: usize, height: usize) -> (g: Self)
        requires
            1 <= width,
            1 <= height,
            4 * (width * height) <= usize::MAX,
        ensures
            g.wf(),
            g@ == spec_new_grid(width as int, height as int),
    {
        let n: usize = width * height;
        let mut meta: Vec<u8> = vec![0u8; n];
        let color: CpuTexture = CpuTexture::new(width, height, new_texture(width, height));
        let velocity: Vec<u64> = vec![0u64; n];
        let g = SandGrid { width, height, meta, color, velocity };
        proof {
            assert(g@.occupied =~= spec_new_grid(width as int, height as int).occupied);
            assert(g@.velocity =~= spec_new_grid(width as int, height as int).velocity);
            assert(g@ =~= spec_new_grid(width as int, height as int));
        }
        g
    }

    /// The flat index of `(x, y)` in the per-cell arrays.
    pub fn coord_to_index(&self, x: usize, y: usize) -> (i: usize)
        requires
            self.wf(),
            x < self@.width,
            y < self@.height,
        ensures
            i == cell_index(self@, x as int, y as int),
            i < self@.width * self@.height,
    {
        proof {
            lemma_cell_index_bounds(self@, x as int, y as int);
        }
        y * self.width + x
    }

    /// Whether a metadata byte marks a cell as solid.
    pub fn is_pixel_solid(info: u8) -> (solid: bool)
        ensures
            solid == (info != 0),
    {
        info != 0
    }

    /// Marks `(x, y)` occupied, seeds its velocity, and paints it with
    /// the cyan spawn color.  Spawning onto an occupied cell just
    /// re-seeds it.
    pub fn spawn_sand_at(&mut self, x: usize, y: usize)
        requires
            old(self).wf(),
            x < old(self)@.width,
            y < old(self)@.height,
        ensures
            final(self).wf(),
            final(self)@ == spec_spawn(old(self)@, x as int, y as int),
    {
        let i: usize = self.coord_to_index(x, y);
        self.meta[i] = 1;
        self.velocity[i] = SPAWN_VELOCITY;
        let r: u8 = 0;
        let g: u8 = 255;
        let b: u8 = 255;
        let a: u8 = 255;
        self.color.set_pixel(x, y, r, g, b, a);
        proof {
            assert(self@ =~= spec_spawn(old(self)@, x as int, y as int));
        }
    }

    /// Exchanges occupancy, color and velocity of `(x, y)` and
    /// `(x1, y1)` as one unit, never partially.
    pub fn swap_cell(&mut self, x: usize, y: usize, x1: usize, y1: usize)
        requires
            old(self).wf(),
            x < old(self)@.width,
            y < old(self)@.height,
            x1 < old(self)@.width,
            y1 < old(self)@.height,
        ensures
            final(self).wf(),
            final(self)@ == spec_swap(
                old(self)@,
                cell_index(old(self)@, x as int, y as int),
                cell_index(old(self)@, x1 as int, y1 as int),
            ),
    {
        let i: usize = self.coord_to_index(x, y);
        let i1: usize = self.coord_to_index(x1, y1);

        let t: u8 = self.meta[i1];
        let m: u8 = self.meta[i];
        self.meta[i1] = m;
        self.meta[i] = t;

        let pixel: (u8, u8, u8, u8) = self.color.get_pixel(x, y);
        let pixel1: (u8, u8, u8, u8) = self.color.get_pixel(x1, y1);
        let (r, g, b, a) = pixel;
        self.color.set_pixel(x1, y1, r, g, b, a);
        let (r, g, b, a) = pixel1;
        self.color.set_pixel(x, y, r, g, b, a);

        let v: u64 = self.velocity[i1];
        let w: u64 = self.velocity[i];
        self.velocity[i1] = w;
        self.velocity[i] = v;
        proof {
            lemma_pixel_index_bounds(
                old(self)@.width as int,
                old(self)@.height as int,
                x as int,
                y as int,
            );
            lemma_pixel_index_bounds(
                old(self)@.width as int,
                old(self)@.height as int,
                x1 as int,
                y1 as int,
            );
            let gi = cell_index(old(self)@, x as int, y as int);
            let gj = cell_index(old(self)@, x1 as int, y1 as int);
            assert(self@.occupied =~= spec_swap(old(self)@, gi, gj).occupied);
            assert(self@.velocity =~= spec_swap(old(self)@, gi, gj).velocity);
            assert(self@.color =~= spec_swap(old(self)@, gi, gj).color);
            assert(self@ =~= spec_swap(old(self)@, gi, gj));
        }
    }

    /// The grid width in cells.
    pub fn get_width(&self) -> (w: usize)
        ensures
            w == self@.width,
    {
        self.width
    }

    /// The grid height in cells.
    pub fn get_height(&self) -> (h: usize)
        ensures
            h == self@.height,
    {
        self.height
    }

    /// A read-only view of the current color buffer, for a renderer to
    /// sample once a step has fully completed.
    pub fn get_color(&self) -> (t: &CpuTexture)
        ensures
            t@ == self.color_view(),
            t@.data == self@.color,
    {
        &self.color
    }

    /// Whether cell `(x, y)` currently holds solid material.
    pub fn is_occupied(&self, x: usize, y: usize) -> (solid: bool)
        requires
            self.wf(),
            x < self@.width,
            y < self@.height,
        ensures
            solid == solid_at(self@, x as int, y as int),
    {
        let i: usize = self.coord_to_index(x, y);
        Self::is_pixel_solid(self.meta[i])
    }

    /// The stored vertical velocity of cell `(x, y)`, in micro-cells
    /// per second; meaningful only while the cell is occupied.
    pub fn get_velocity(&self, x: usize, y: usize) -> (v: u64)
        requires
            self.wf(),
            x < self@.width,
            y < self@.height,
        ensures
            v == self@.velocity[cell_index(self@, x as int, y as int)],
    {
        let i: usize = self.coord_to_index(x, y);
        self.velocity[i]
    }

    /// Advances every occupied, non-floor cell by one discrete gravity
    /// step over `dt` elapsed milliseconds.
    ///
    /// Rows are visited bottom to top (the floor row itself never
    /// moves) and columns left to right; this order keeps a particle
    /// from being moved twice in one step.  The resulting state is
    /// exactly [`spec_step`] of the starting state.
    pub fn simulate(&mut self, dt: u32)
        requires
            old(self).wf(),
        ensures
            final(self).wf(),
            final(self)@ == spec_step(old(self)@, dt),
    {
        let ghost g0 = self@;
        let width: usize = self.width;
        let height: usize = self.height;
        let mut yy: usize = height;
        while yy > 0
            invariant
                self.wf(),
                grid_wf(g0),
                self@.width == g0.width,
                self@.height == g0.height,
                width == g0.width,
                height == g0.height,
                yy <= height,
                self@ == rows_done(g0, dt, yy as int),
            decreases yy,
        {
            let y: usize = yy - 1;
            let ghost grow = self@;
            let mut x: usize = 0;
            while x < width
                invariant
                    self.wf(),
                    grid_wf(g0),
                    self@.width == g0.width,
                    self@.height == g0.height,
                    width == g0.width,
                    height == g0.height,
                    y < height,
                    x <= width,
                    grow == rows_done(g0, dt, y + 1),
                    self@ == cols_done(grow, dt, y as int, x as int),
                decreases width - x,
            {
                let ghost gpre = self@;
                self.step_one_cell(x, y, dt, Ghost(gpre));
                proof {
                    assert(cols_done(grow, dt, y as int, x + 1) == step_cell(
                        cols_done(grow, dt, y as int, x as int),
                        dt,
                        x as int,
                        y as int,
                    ));
                }
                x += 1;
            }
            proof {
                assert(rows_done(g0, dt, y as int) == cols_done(
                    rows_done(g0, dt, y + 1),
                    dt,
                    y as int,
                    g0.width as int,
                ));
            }
            yy = y;
        }
    }

    /// Processes the single cell `(x, y)`: the inner body of
    /// [`Self::simulate`], whose effect is exactly [`step_cell`].
    fn step_one_cell(&mut self, x: usize, y: usize, dt: u32, Ghost(gpre): Ghost<GridView>)
        requires
            old(self).wf(),
            gpre == old(self)@,
            x < old(self)@.width,
            y < old(self)@.height,
        ensures
            final(self).wf(),
            final(self)@ == step_cell(gpre, dt, x as int, y as int),
            final(self)@.width == old(self)@.width,
            final(self)@.height == old(self)@.height,
    {
        let width: usize = self.width;
        let height: usize = self.height;
        let i_current: usize = self.coord_to_index(x, y);
        if !Self::is_pixel_solid(self.meta[i_current]) {
            proof {
                assert(!solid_at(gpre, x as int, y as int));
                assert(self@ == step_cell(gpre, dt, x as int, y as int));
            }
            return ;
        }
        if y == height - 1 {
            proof {
                assert(self@ == step_cell(gpre, dt, x as int, y as int));
            }
            return ;
        }
        // Integrate velocity, saturating at the cap.
        let v: u64 = self.velocity[i_current];
        let inc: u64 = GRAVITY_MICRO_PER_MS * (dt as u64);
        let v_next: u64 = if inc > VELOCITY_CAP {
            VELOCITY_CAP
        } else if v >= VELOCITY_CAP - inc {
            VELOCITY_CAP
        } else {
            v + inc
        };
        proof {
            assert(v_next == spec_integrate(v, dt));
        }
        self.velocity[i_current] = v_next;

        // Repaint the cell to encode its velocity in the red channel.
        let c: u64 = if v_next > 10 * MICRO_PER_CELL {
            10 * MICRO_PER_CELL
        } else {
            v_next
        };
        let red64: u64 = (c * 510 + 10 * MICRO_PER_CELL) / (20 * MICRO_PER_CELL);
        proof {
            assert(red64 <= 255) by (nonlinear_arith)
                requires
                    c <= 10 * MICRO_PER_CELL,
                    red64 == (c * 510 + 10 * MICRO_PER_CELL) / (20 * MICRO_PER_CELL),
            ;
        }
        let red: u8 = red64 as u8;
        proof {
            assert(red == spec_red(v_next));
        }
        self.color.set_pixel(x, y, red, 0, 0, 255);
        let ghost i = cell_index(gpre, x as int, y as int);
        let ghost g1 = GridView {
            velocity: gpre.velocity.update(i, v_next),
            color: spec_set_pixel(gpre.color, gpre.width as int, x as int, y as int, red, 0, 0, 255),
            ..gpre
        };
        proof {
            assert(self@ =~= g1);
        }

        if v_next < FALL_THRESHOLD {
            proof {
                assert(cell_dest(gpre, dt, x as int, y as int) is None);
                assert(self@ == step_cell(gpre, dt, x as int, y as int));
            }
            return ;
        }

        // The farthest row gravity would carry the particle, clamped
        // to the floor.
        let disp: u64 = (v_next + HALF_CELL) / MICRO_PER_CELL;
        proof {
            assert(disp as int == spec_displacement(v_next));
            assert(disp >= 1) by (nonlinear_arith)
                requires
                    v_next >= FALL_THRESHOLD,
                    disp == (v_next + HALF_CELL) / (MICRO_PER_CELL as int),
            ;
        }
        let fall: usize = height - 1 - y;
        let y_target: usize = if disp >= fall as u64 {
            height - 1
        } else {
            y + (disp as usize)
        };
        proof {
            assert(y_target as int == (if y + spec_displacement(v_next) >= gpre.height - 1 {
                gpre.height - 1
            } else {
                y + spec_displacement(v_next)
            }));
            assert(y + 1 <= y_target <= gpre.height - 1);
        }

        // Scan for the first obstruction below.
        let mut y_target_collision: usize = y + 1;
        let mut y_below: usize = y + 1;
        while y_below <= y_target
            invariant
                self.wf(),
                grid_wf(gpre),
                self@ == g1,
                gpre.occupied == self@.occupied,
                gpre.width == self@.width,
                gpre.height == self@.height,
                height == gpre.height,
                x < gpre.width,
                y + 1 <= y_below,
                y_below <= y_target + 1,
                y + 1 <= y_target <= gpre.height - 1,
                y + 1 <= y_target_collision <= gpre.height - 1,
                spec_scan(gpre, x as int, y_below as int, y_target as int,
                    y_target_collision as int) == spec_scan(
                    gpre,
                    x as int,
                    y + 1,
                    y_target as int,
                    y + 1,
                ),
            ensures
                self@ == g1,
                y + 1 <= y_target_collision <= gpre.height - 1,
                y_target_collision as int == spec_scan(
                    gpre,
                    x as int,
                    y + 1,
                    y_target as int,
                    y + 1,
                ),
            decreases y_target + 1 - y_below,
        {
            if y_below == height - 1 {
                break ;
            }
            let i_below: usize = self.coord_to_index(x, y_below);
            if Self::is_pixel_solid(self.meta[i_below]) {
                proof {
                    assert(solid_at(gpre, x as int, y_below as int));
                }
                break ;
            }
            proof {
                assert(!solid_at(gpre, x as int, y_below as int));
                assert(spec_scan(gpre, x as int, y_below as int, y_target as int,
                    y_target_collision as int) == spec_scan(
                    gpre,
                    x as int,
                    y_below + 1,
                    y_target as int,
                    y_below as int,
                ));
            }
            y_target_collision = y_below;
            y_below += 1;
        }
        let ytc: usize = y_target_collision;

        // Straight fall if the landing cell is empty; otherwise try
        // the two diagonals, left before right; otherwise settle.
        let i_below: usize = self.coord_to_index(x, ytc);
        if !Self::is_pixel_solid(self.meta[i_below]) {
            self.swap_cell(x, y, x, ytc);
            proof {
                assert(cell_dest(gpre, dt, x as int, y as int) == Some(
                    cell_index(gpre, x as int, ytc as int),
                ));
                assert(self@ == step_cell(gpre, dt, x as int, y as int));
            }
            return ;
        }
        let left_free: bool = if x > 0 {
            let i_l: usize = self.coord_to_index(x - 1, ytc);
            !Self::is_pixel_solid(self.meta[i_l])
        } else {
            false
        };
        if left_free {
            self.swap_cell(x, y, x - 1, ytc);
            proof {
                assert(cell_dest(gpre, dt, x as int, y as int) == Some(
                    cell_index(gpre, x - 1, ytc as int),
                ));
                assert(self@ == step_cell(gpre, dt, x as int, y as int));
            }
            return ;
        }
        let right_free: bool = if x + 1 < width {
            let i_r: usize = self.coord_to_index(x + 1, ytc);
            !Self::is_pixel_solid(self.meta[i_r])
        } else {
            false
        };
        if right_free {
            self.swap_cell(x, y, x + 1, ytc);
            proof {
                assert(cell_dest(gpre, dt, x as int, y as int) == Some(
                    cell_index(gpre, x + 1, ytc as int),
                ));
                assert(self@ == step_cell(gpre, dt, x as int, y as int));
            }
            return ;
        }
        proof {
            assert(cell_dest(gpre, dt, x as int, y as int) is None);
            assert(self@ == step_cell(gpre, dt, x as int, y as int));
        }
    }
}

} // verus!
