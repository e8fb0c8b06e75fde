//! Global properties of the simulation step: material is conserved,
//! the floor never empties, every swap moves a particle strictly
//! downward (so nothing moves twice in one step), slow particles stay
//! put, and fully blocked particles settle.

use vstd::prelude::*;

use crate::grid::cell_dest;
use crate::grid::cell_index;
use crate::grid::cols_done;
use crate::grid::grid_wf;
use crate::grid::lemma_cell_index_bounds;
use crate::grid::lemma_cell_index_injective;
use crate::grid::rows_done;
use crate::grid::solid_at;
use crate::grid::spec_integrate;
use crate::grid::spec_scan;
use crate::grid::spec_spawn;
use crate::grid::spec_step;
use crate::grid::spec_swap;
use crate::grid::step_cell;
use crate::grid::GridView;
use crate::grid::FALL_THRESHOLD;
use crate::grid::HALF_CELL;
use crate::grid::MICRO_PER_CELL;

verus! {

/// 1 for a solid metadata byte, 0 for an empty one.
pub open spec fn occ_flag(b: u8) -> nat {
    if b != 0 {
        1nat
    } else {
        0nat
    }
}

/// The number of occupied cells in a metadata array.
pub open spec fn occ_count(s: Seq<u8>) -> nat
    decreases s.len(),
{
    if s.len() == 0 {
        0nat
    } else {
        occ_count(s.drop_last()) + occ_flag(s.last())
    }
}

/// Overwriting one entry changes the occupied count by exactly the
/// difference of the two entries' flags.
pub proof fn lemma_occ_count_update(s: Seq<u8>, i: int, v: u8)
    requires
        0 <= i < s.len(),
    ensures
        occ_count(s.update(i, v)) + occ_flag(s[i]) == occ_count(s) + occ_flag(v),
    decreases s.len(),
{
    let t = s.update(i, v);
    if i == s.len() - 1 {
        assert(t.drop_last() =~= s.drop_last());
    } else {
        assert(t.drop_last() =~= s.drop_last().update(i, v));
        lemma_occ_count_update(s.drop_last(), i, v);
    }
}

/// The collision scan never leaves the band between its starting row
/// and the floor.
pub proof fn lemma_scan_range(g: GridView, x: int, yb: int, y_target: int, cur: int, lo: int)
    requires
        lo <= cur <= g.height - 1,
        lo <= yb,
        y_target <= g.height - 1,
    ensures
        lo <= spec_scan(g, x, yb, y_target, cur) <= g.height - 1,
    decreases y_target + 1 - yb,
{
    if yb > y_target {
    } else if yb == g.height - 1 {
    } else if solid_at(g, x, yb) {
    } else {
        lemma_scan_range(g, x, yb + 1, y_target, yb, lo);
    }
}

/// Whatever destination [`cell_dest`] chooses is an empty in-bounds
/// cell strictly below the moving cell's row.
pub proof fn lemma_cell_dest_props(g: GridView, dt: u32, x: int, y: int)
    requires
        grid_wf(g),
        0 <= x < g.width,
        0 <= y < g.height,
    ensures
        match cell_dest(g, dt, x, y) {
            Option::None => true,
            Option::Some(j) => {
                &&& 0 <= j < g.width * g.height
                &&& g.occupied[j] == 0
                &&& j != cell_index(g, x, y)
                &&& exists|xd: int, yd: int|
                    0 <= xd < g.width && y + 1 <= yd < g.height && j == cell_index(g, xd, yd)
            },
        },
{
    if cell_dest(g, dt, x, y) is Some {
        let v2 = spec_integrate(g.velocity[cell_index(g, x, y)], dt);
        let disp = crate::grid::spec_displacement(v2);
        assert(disp >= 1) by (nonlinear_arith)
            requires
                v2 >= FALL_THRESHOLD,
                disp == (v2 + HALF_CELL) / (MICRO_PER_CELL as int),
        ;
        let y_target = if y + disp >= g.height - 1 {
            g.height - 1
        } else {
            y + disp
        };
        let ytc = spec_scan(g, x, y + 1, y_target, y + 1);
        lemma_scan_range(g, x, y + 1, y_target, y + 1, y + 1);
        let j = cell_dest(g, dt, x, y)->Some_0;
        if !solid_at(g, x, ytc) {
            lemma_cell_index_bounds(g, x, ytc);
            lemma_cell_index_injective(g, x, y, x, ytc);
            assert(0 <= x < g.width && y + 1 <= ytc < g.height && j == cell_index(g, x, ytc));
        } else if x > 0 && !solid_at(g, x - 1, ytc) {
            lemma_cell_index_bounds(g, x - 1, ytc);
            lemma_cell_index_injective(g, x, y, x - 1, ytc);
            assert(0 <= x - 1 < g.width && y + 1 <= ytc < g.height && j == cell_index(
                g,
                x - 1,
                ytc,
            ));
        } else {
            lemma_cell_index_bounds(g, x + 1, ytc);
            lemma_cell_index_injective(g, x, y, x + 1, ytc);
            assert(0 <= x + 1 < g.width && y + 1 <= ytc < g.height && j == cell_index(
                g,
                x + 1,
                ytc,
            ));
        }
    }
}

/// What processing one cell can and cannot touch: dimensions and
/// lengths are kept, the occupied count is kept, floor processing is a
/// no-op, and every occupied cell other than the processed one keeps
/// its occupancy and velocity.
pub proof fn lemma_step_cell_frame(g: GridView, dt: u32, x: int, y: int)
    requires
        grid_wf(g),
        0 <= x < g.width,
        0 <= y < g.height,
    ensures
        ({
            let g2 = step_cell(g, dt, x, y);
            &&& g2.width == g.width
            &&& g2.height == g.height
            &&& g2.occupied.len() == g.occupied.len()
            &&& g2.velocity.len() == g.velocity.len()
            &&& g2.color.len() == g.color.len()
            &&& occ_count(g2.occupied) == occ_count(g.occupied)
            &&& y == g.height - 1 ==> g2 == g
            &&& !solid_at(g, x, y) ==> g2 == g
            &&& forall|k: int|
                0 <= k < g.occupied.len() && g.occupied[k] != 0 && k != cell_index(g, x, y)
                    ==> g2.occupied[k] == g.occupied[k] && g2.velocity[k] == g.velocity[k]
            &&& (solid_at(g, x, y) && y != g.height - 1 && cell_dest(g, dt, x, y) is None) ==> (
            g2.occupied == g.occupied && g2.velocity == g.velocity.update(
                cell_index(g, x, y),
                spec_integrate(g.velocity[cell_index(g, x, y)], dt),
            ))
            &&& match cell_dest(g, dt, x, y) {
                Option::None => true,
                Option::Some(j) => g2.occupied[j] == g.occupied[cell_index(g, x, y)]
                    && g2.occupied[cell_index(g, x, y)] == g.occupied[j],
            }
        }),
{
    lemma_cell_index_bounds(g, x, y);
    let i = cell_index(g, x, y);
    let g2 = step_cell(g, dt, x, y);
    if !solid_at(g, x, y) || y == g.height - 1 {
    } else {
        let v2 = spec_integrate(g.velocity[i], dt);
        lemma_cell_dest_props(g, dt, x, y);
        match cell_dest(g, dt, x, y) {
            Option::None => {},
            Option::Some(j) => {
                let s1 = g.occupied.update(i, g.occupied[j]);
                lemma_occ_count_update(g.occupied, i, g.occupied[j]);
                lemma_occ_count_update(s1, j, g.occupied[i]);
            },
        }
    }
}

/// What processing the first `x` cells of row `y` keeps: shape,
/// well-formedness, the occupied count, the whole grid when `y` is the
/// floor row, and every occupied cell outside the processed prefix.
pub proof fn lemma_cols_frame(g: GridView, dt: u32, y: int, x: int)
    requires
        grid_wf(g),
        0 <= y < g.height,
        0 <= x <= g.width,
    ensures
        ({
            let gc = cols_done(g, dt, y, x);
            &&& gc.width == g.width
            &&& gc.height == g.height
            &&& grid_wf(gc)
            &&& occ_count(gc.occupied) == occ_count(g.occupied)
            &&& y == g.height - 1 ==> gc == g
            &&& forall|kx: int, ky: int|
                0 <= kx < g.width && 0 <= ky < g.height && g.occupied[#[trigger] cell_index(
                    g,
                    kx,
                    ky,
                )] != 0 && !(ky == y && kx < x) ==> gc.occupied[cell_index(g, kx, ky)]
                    == g.occupied[cell_index(g, kx, ky)] && gc.velocity[cell_index(g, kx, ky)]
                    == g.velocity[cell_index(g, kx, ky)]
        }),
    decreases x,
{
    if x <= 0 {
    } else {
        lemma_cols_frame(g, dt, y, x - 1);
        let gp = cols_done(g, dt, y, x - 1);
        lemma_step_cell_frame(gp, dt, x - 1, y);
        let gc = cols_done(g, dt, y, x);
        assert(gc == step_cell(gp, dt, x - 1, y));
        if y == g.height - 1 {
            assert(gc == g);
        }
        assert forall|kx: int, ky: int|
            0 <= kx < g.width && 0 <= ky < g.height && g.occupied[#[trigger] cell_index(
                g,
                kx,
                ky,
            )] != 0 && !(ky == y && kx < x) implies gc.occupied[cell_index(g, kx, ky)]
            == g.occupied[cell_index(g, kx, ky)] && gc.velocity[cell_index(g, kx, ky)]
            == g.velocity[cell_index(g, kx, ky)] by {
            let k = cell_index(g, kx, ky);
            lemma_cell_index_bounds(g, kx, ky);
            assert(gp.occupied[k] == g.occupied[k] && gp.velocity[k] == g.velocity[k]);
            lemma_cell_index_injective(g, kx, ky, x - 1, y);
            assert(cell_index(gp, x - 1, y) == cell_index(g, x - 1, y));
        }
    }
}

/// What processing all rows from `y` down keeps: shape,
/// well-formedness, the occupied count, and every occupied cell that
/// lies above row `y` or on the floor row.
pub proof fn lemma_rows_frame(g: GridView, dt: u32, y: int)
    requires
        grid_wf(g),
        0 <= y,
    ensures
        ({
            let gr = rows_done(g, dt, y);
            &&& gr.width == g.width
            &&& gr.height == g.height
            &&& grid_wf(gr)
            &&& occ_count(gr.occupied) == occ_count(g.occupied)
            &&& forall|kx: int, ky: int|
                0 <= kx < g.width && 0 <= ky < g.height && g.occupied[#[trigger] cell_index(
                    g,
                    kx,
                    ky,
                )] != 0 && (ky < y || ky == g.height - 1) ==> gr.occupied[cell_index(g, kx, ky)]
                    == g.occupied[cell_index(g, kx, ky)] && gr.velocity[cell_index(g, kx, ky)]
                    == g.velocity[cell_index(g, kx, ky)]
        }),
    decreases g.height - y,
{
    if y >= g.height {
    } else {
        lemma_rows_frame(g, dt, y + 1);
        let gm = rows_done(g, dt, y + 1);
        lemma_cols_frame(gm, dt, y, g.width as int);
        let gr = rows_done(g, dt, y);
        assert forall|kx: int, ky: int|
            0 <= kx < g.width && 0 <= ky < g.height && g.occupied[#[trigger] cell_index(
                g,
                kx,
                ky,
            )] != 0 && (ky < y || ky == g.height - 1) implies gr.occupied[cell_index(g, kx, ky)]
            == g.occupied[cell_index(g, kx, ky)] && gr.velocity[cell_index(g, kx, ky)]
            == g.velocity[cell_index(g, kx, ky)] by {
            let k = cell_index(g, kx, ky);
            lemma_cell_index_bounds(g, kx, ky);
            assert(ky < y + 1 || ky == g.height - 1);
            assert(gm.occupied[k] == g.occupied[k] && gm.velocity[k] == g.velocity[k]);
            assert(cell_index(gm, kx, ky) == k);
            if ky == y {
                assert(y == g.height - 1);
                assert(cols_done(gm, dt, y, gm.width as int) == gm);
            }
        }
    }
}

/// Conservation: one simulation step never creates or destroys
/// material; the number of occupied cells is exactly preserved.
pub proof fn lemma_conservation(g: GridView, dt: u32)
    requires
        grid_wf(g),
    ensures
        occ_count(spec_step(g, dt).occupied) == occ_count(g.occupied),
{
    lemma_rows_frame(g, dt, 0);
}

/// Spawning only adds: depositing material raises the occupied count
/// by one on an empty cell and leaves it unchanged on an occupied one.
pub proof fn lemma_spawn_adds(g: GridView, x: int, y: int)
    requires
        grid_wf(g),
        0 <= x < g.width,
        0 <= y < g.height,
    ensures
        occ_count(spec_spawn(g, x, y).occupied) == occ_count(g.occupied) + (if solid_at(g, x, y) {
            0int
        } else {
            1int
        }),
{
    lemma_cell_index_bounds(g, x, y);
    lemma_occ_count_update(g.occupied, cell_index(g, x, y), 1u8);
}

/// Floor invariant: a simulation step never removes material from the
/// bottom row; an occupied floor cell keeps its occupancy byte and its
/// velocity.
pub proof fn lemma_floor_preserved(g: GridView, dt: u32, x: int)
    requires
        grid_wf(g),
        0 <= x < g.width,
        solid_at(g, x, g.height - 1),
    ensures
        spec_step(g, dt).occupied[cell_index(g, x, g.height - 1)] == g.occupied[cell_index(
            g,
            x,
            g.height - 1,
        )],
        spec_step(g, dt).velocity[cell_index(g, x, g.height - 1)] == g.velocity[cell_index(
            g,
            x,
            g.height - 1,
        )],
        solid_at(spec_step(g, dt), x, g.height - 1),
{
    lemma_rows_frame(g, dt, 0);
    assert(cell_index(spec_step(g, dt), x, g.height - 1) == cell_index(g, x, g.height - 1));
}

/// Swap atomicity: exchanging two cells moves occupancy, velocity and
/// all four color bytes together — never one without the others — and
/// touches nothing else.
pub proof fn lemma_swap_atomic(g: GridView, i: int, j: int)
    requires
        grid_wf(g),
        0 <= i < g.width * g.height,
        0 <= j < g.width * g.height,
        i != j,
    ensures
        ({
            let gs = spec_swap(g, i, j);
            &&& gs.occupied[i] == g.occupied[j] && gs.occupied[j] == g.occupied[i]
            &&& gs.velocity[i] == g.velocity[j] && gs.velocity[j] == g.velocity[i]
            &&& forall|k: int|
                0 <= k < 4 ==> #[trigger] gs.color[4 * i + k] == g.color[4 * j + k]
                    && #[trigger] gs.color[4 * j + k] == g.color[4 * i + k]
            &&& forall|k: int|
                0 <= k < g.occupied.len() && k != i && k != j ==> #[trigger] gs.occupied[k]
                    == g.occupied[k] && gs.velocity[k] == g.velocity[k]
            &&& forall|b: int|
                0 <= b < g.color.len() && !(4 * i <= b < 4 * i + 4) && !(4 * j <= b < 4 * j + 4)
                    ==> #[trigger] gs.color[b] == g.color[b]
        }),
{
}

/// While the first `x` cells of row `y` are processed, a given
/// occupied cell keeps its occupancy; if it lies in the processed
/// prefix and is below the fall threshold its velocity is exactly the
/// integrated one, and otherwise its velocity is untouched.
pub proof fn lemma_cols_slow(g: GridView, dt: u32, y: int, x: int, tx: int, ty: int)
    requires
        grid_wf(g),
        0 <= y < g.height,
        0 <= x <= g.width,
        0 <= tx < g.width,
        0 <= ty < g.height,
        g.occupied[cell_index(g, tx, ty)] != 0,
        (ty == y && ty != g.height - 1 && tx < x) ==> spec_integrate(
            g.velocity[cell_index(g, tx, ty)],
            dt,
        ) < FALL_THRESHOLD,
    ensures
        ({
            let gc = cols_done(g, dt, y, x);
            let t = cell_index(g, tx, ty);
            &&& gc.occupied[t] == g.occupied[t]
            &&& (if ty == y && ty != g.height - 1 && tx < x {
                gc.velocity[t] == spec_integrate(g.velocity[t], dt)
            } else {
                gc.velocity[t] == g.velocity[t]
            })
        }),
    decreases x,
{
    lemma_cell_index_bounds(g, tx, ty);
    let t = cell_index(g, tx, ty);
    if x <= 0 {
    } else {
        lemma_cols_slow(g, dt, y, x - 1, tx, ty);
        lemma_cols_frame(g, dt, y, x - 1);
        let gp = cols_done(g, dt, y, x - 1);
        lemma_step_cell_frame(gp, dt, x - 1, y);
        let gc = cols_done(g, dt, y, x);
        assert(gc == step_cell(gp, dt, x - 1, y));
        if tx == x - 1 && ty == y {
            if y == g.height - 1 {
            } else {
                let v2 = spec_integrate(gp.velocity[t], dt);
                assert(gp.velocity[t] == g.velocity[t]);
                assert(cell_index(gp, x - 1, y) == t);
                assert(solid_at(gp, x - 1, y));
                assert(v2 < FALL_THRESHOLD);
                assert(cell_dest(gp, dt, x - 1, y) is None);
            }
        } else {
            lemma_cell_index_injective(g, tx, ty, x - 1, y);
            assert(cell_index(gp, x - 1, y) == cell_index(g, x - 1, y));
            assert(gc.occupied[t] == gp.occupied[t] && gc.velocity[t] == gp.velocity[t]);
        }
    }
}

/// While the rows from `y` down are processed, a given occupied cell
/// keeps its occupancy; if it lies in a processed, non-floor row and
/// is below the fall threshold, its velocity is exactly the integrated
/// one, and otherwise its velocity is untouched.
pub proof fn lemma_rows_slow(g: GridView, dt: u32, y: int, tx: int, ty: int)
    requires
        grid_wf(g),
        0 <= y,
        0 <= tx < g.width,
        0 <= ty < g.height,
        g.occupied[cell_index(g, tx, ty)] != 0,
        (y <= ty && ty != g.height - 1) ==> spec_integrate(g.velocity[cell_index(g, tx, ty)], dt)
            < FALL_THRESHOLD,
    ensures
        ({
            let gr = rows_done(g, dt, y);
            let t = cell_index(g, tx, ty);
            &&& gr.occupied[t] == g.occupied[t]
            &&& (if y <= ty && ty != g.height - 1 {
                gr.velocity[t] == spec_integrate(g.velocity[t], dt)
            } else {
                gr.velocity[t] == g.velocity[t]
            })
        }),
    decreases g.height - y,
{
    lemma_cell_index_bounds(g, tx, ty);
    let t = cell_index(g, tx, ty);
    if y >= g.height {
    } else {
        lemma_rows_slow(g, dt, y + 1, tx, ty);
        lemma_rows_frame(g, dt, y + 1);
        let gm = rows_done(g, dt, y + 1);
        assert(cell_index(gm, tx, ty) == t);
        lemma_cols_slow(gm, dt, y, gm.width as int, tx, ty);
    }
}

/// Velocity threshold: an occupied cell whose integrated velocity
/// stays below one cell per second never displaces in that step; it
/// keeps its occupancy byte, and its velocity only accumulates.
pub proof fn lemma_velocity_threshold(g: GridView, dt: u32, x: int, y: int)
    requires
        grid_wf(g),
        0 <= x < g.width,
        0 <= y < g.height,
        solid_at(g, x, y),
        spec_integrate(g.velocity[cell_index(g, x, y)], dt) < FALL_THRESHOLD,
    ensures
        spec_step(g, dt).occupied[cell_index(g, x, y)] == g.occupied[cell_index(g, x, y)],
        solid_at(spec_step(g, dt), x, y),
        y != g.height - 1 ==> spec_step(g, dt).velocity[cell_index(g, x, y)] == spec_integrate(
            g.velocity[cell_index(g, x, y)],
            dt,
        ),
        y == g.height - 1 ==> spec_step(g, dt).velocity[cell_index(g, x, y)] == g.velocity[
            cell_index(g, x, y)],
{
    lemma_rows_slow(g, dt, 0, x, y);
    lemma_rows_frame(g, dt, 0);
    assert(cell_index(spec_step(g, dt), x, y) == cell_index(g, x, y));
}

/// Settling: a falling cell whose landing row is blocked straight
/// below and on both diagonals (the grid edge counting as blocked)
/// stays exactly in place for the step while its velocity still
/// accumulates.
pub proof fn lemma_settling(g: GridView, dt: u32, x: int, y: int)
    requires
        grid_wf(g),
        0 <= x < g.width,
        0 <= y < g.height - 1,
        solid_at(g, x, y),
        solid_at(g, x, y + 1),
        x > 0 ==> solid_at(g, x - 1, y + 1),
        x + 1 < g.width ==> solid_at(g, x + 1, y + 1),
    ensures
        cell_dest(g, dt, x, y) is None,
        step_cell(g, dt, x, y).occupied == g.occupied,
        step_cell(g, dt, x, y).velocity == g.velocity.update(
            cell_index(g, x, y),
            spec_integrate(g.velocity[cell_index(g, x, y)], dt),
        ),
{
    let i = cell_index(g, x, y);
    let v2 = spec_integrate(g.velocity[i], dt);
    if v2 >= FALL_THRESHOLD {
        let disp = crate::grid::spec_displacement(v2);
        assert(disp >= 1) by (nonlinear_arith)
            requires
                v2 >= FALL_THRESHOLD,
                disp == (v2 + HALF_CELL) / (MICRO_PER_CELL as int),
        ;
        let y_target = if y + disp >= g.height - 1 {
            g.height - 1
        } else {
            y + disp
        };
        let ytc = spec_scan(g, x, y + 1, y_target, y + 1);
        assert(ytc == y + 1);
    }
    lemma_step_cell_frame(g, dt, x, y);
}

/// The grid state at the moment cell `(x, y)` comes up for processing
/// within one simulation step: all rows below are done, and the cells
/// to its left in its own row are done.
pub open spec fn grid_before(g: GridView, dt: u32, x: int, y: int) -> GridView {
    cols_done(rows_done(g, dt, y + 1), dt, y, x)
}

/// Single mover per cell per step: the swap chosen while `(x1, y1)` is
/// processed has its source at `(x1, y1)` itself and its destination
/// strictly below row `y1`.  Every cell processed later — `(x2, y2)`
/// with `y2 < y1`, or `y2 == y1` and `x2 > x1` — is a different cell,
/// so no cell is the mover of two swaps and no moved particle is ever
/// picked up again as a mover later in the same step.
pub proof fn lemma_single_mover(g: GridView, dt: u32, x1: int, y1: int, x2: int, y2: int)
    requires
        grid_wf(g),
        0 <= x1 < g.width,
        0 <= y1 < g.height,
        0 <= x2 < g.width,
        0 <= y2 < g.height,
        y2 < y1 || (y2 == y1 && x1 < x2),
    ensures
        cell_index(g, x1, y1) != cell_index(g, x2, y2),
        match cell_dest(grid_before(g, dt, x1, y1), dt, x1, y1) {
            Option::None => true,
            Option::Some(j) => j != cell_index(g, x2, y2) && j != cell_index(g, x1, y1),
        },
{
    lemma_cell_index_injective(g, x1, y1, x2, y2);
    lemma_rows_frame(g, dt, y1 + 1);
    let gm = rows_done(g, dt, y1 + 1);
    lemma_cols_frame(gm, dt, y1, x1);
    let gb = grid_before(g, dt, x1, y1);
    assert(gb.width == g.width && gb.height == g.height);
    lemma_cell_dest_props(gb, dt, x1, y1);
    if cell_dest(gb, dt, x1, y1) is Some {
        let j = cell_dest(gb, dt, x1, y1)->Some_0;
        let (xd, yd): (int, int) = choose|xd: int, yd: int|
            0 <= xd < gb.width && y1 + 1 <= yd < gb.height && j == cell_index(gb, xd, yd);
        assert(cell_index(gb, xd, yd) == cell_index(g, xd, yd));
        lemma_cell_index_injective(g, xd, yd, x2, y2);
        lemma_cell_index_injective(g, xd, yd, x1, y1);
    }
}

/// The intermediate state of a step is itself a well-formed grid of
/// the same dimensions.
pub proof fn lemma_grid_before_wf(g: GridView, dt: u32, x: int, y: int)
    requires
        grid_wf(g),
        0 <= y < g.height,
        0 <= x <= g.width,
    ensures
        grid_wf(grid_before(g, dt, x, y)),
        grid_before(g, dt, x, y).width == g.width,
        grid_before(g, dt, x, y).height == g.height,
{
    lemma_rows_frame(g, dt, y + 1);
    lemma_cols_frame(rows_done(g, dt, y + 1), dt, y, x);
}

/// A cell strictly below the traversal frontier that is occupied at
/// some moment of a step stays occupied for the rest of the step: the
/// traversal never returns to rows already passed, and a swap can
/// only fill, never empty, an unprocessed cell's surroundings below.
pub proof fn lemma_occupied_persists(
    g: GridView,
    dt: u32,
    x1: int,
    y1: int,
    x2: int,
    y2: int,
    kx: int,
    ky: int,
)
    requires
        grid_wf(g),
        0 <= y1 < g.height,
        0 <= x1 <= g.width,
        0 <= y2 <= y1,
        0 <= x2 <= g.width,
        y2 < y1 || x1 <= x2,
        0 <= kx < g.width,
        y1 < ky < g.height,
        grid_before(g, dt, x1, y1).occupied[cell_index(g, kx, ky)] != 0,
    ensures
        grid_before(g, dt, x2, y2).occupied[cell_index(g, kx, ky)] != 0,
    decreases (y1 - y2) * (g.width + 1) + x2 - x1,
{
    lemma_cell_index_bounds(g, kx, ky);
    if y2 < y1 {
        assert((y1 - y2) * (g.width + 1) >= g.width + 1) by (nonlinear_arith)
            requires
                y2 < y1,
                g.width >= 0,
        ;
    }
    if y2 == y1 && x2 == x1 {
    } else if x2 > 0 {
        lemma_occupied_persists(g, dt, x1, y1, x2 - 1, y2, kx, ky);
        let gp = grid_before(g, dt, x2 - 1, y2);
        lemma_grid_before_wf(g, dt, x2 - 1, y2);
        lemma_step_cell_frame(gp, dt, x2 - 1, y2);
        lemma_cell_index_injective(g, kx, ky, x2 - 1, y2);
        assert(cell_index(gp, x2 - 1, y2) == cell_index(g, x2 - 1, y2));
        assert(grid_before(g, dt, x2, y2) == step_cell(gp, dt, x2 - 1, y2));
    } else {
        assert(grid_before(g, dt, 0, y2) == rows_done(g, dt, y2 + 1));
        assert(grid_before(g, dt, g.width as int, y2 + 1) == rows_done(g, dt, y2 + 1));
        assert((y1 - y2) * (g.width + 1) == (y1 - (y2 + 1)) * (g.width + 1) + (g.width + 1))
            by (nonlinear_arith);
        lemma_occupied_persists(g, dt, x1, y1, g.width as int, y2 + 1, kx, ky);
    }
}

/// No two swaps of one step share a destination: once a particle has
/// landed in a cell, that cell is occupied for the rest of the step
/// and is never chosen as a landing cell again.
pub proof fn lemma_dest_not_reused(g: GridView, dt: u32, x1: int, y1: int, x2: int, y2: int)
    requires
        grid_wf(g),
        0 <= x1 < g.width,
        0 <= y1 < g.height,
        0 <= x2 < g.width,
        0 <= y2 < g.height,
        y2 < y1 || (y2 == y1 && x1 < x2),
    ensures
        match (cell_dest(grid_before(g, dt, x1, y1), dt, x1, y1), cell_dest(
            grid_before(g, dt, x2, y2),
            dt,
            x2,
            y2,
        )) {
            (Option::Some(j1), Option::Some(j2)) => j1 != j2,
            _ => true,
        },
{
    let gb1 = grid_before(g, dt, x1, y1);
    let gb2 = grid_before(g, dt, x2, y2);
    lemma_grid_before_wf(g, dt, x1, y1);
    lemma_grid_before_wf(g, dt, x2, y2);
    if cell_dest(gb1, dt, x1, y1) is Some && cell_dest(gb2, dt, x2, y2) is Some {
        let j1 = cell_dest(gb1, dt, x1, y1)->Some_0;
        lemma_cell_dest_props(gb1, dt, x1, y1);
        let (xd, yd): (int, int) = choose|xd: int, yd: int|
            0 <= xd < gb1.width && y1 + 1 <= yd < gb1.height && j1 == cell_index(gb1, xd, yd);
        assert(cell_index(gb1, xd, yd) == cell_index(g, xd, yd));
        lemma_step_cell_frame(gb1, dt, x1, y1);
        assert(solid_at(gb1, x1, y1));
        assert(grid_before(g, dt, x1 + 1, y1) == step_cell(gb1, dt, x1, y1));
        assert(grid_before(g, dt, x1 + 1, y1).occupied[cell_index(g, xd, yd)] != 0);
        lemma_occupied_persists(g, dt, x1 + 1, y1, x2, y2, xd, yd);
        lemma_cell_dest_props(gb2, dt, x2, y2);
        assert(gb2.occupied[j1] != 0);
    }
}

/// Determinism: one simulation step is a function of the grid state
/// and the elapsed time alone, so identical states stepped by
/// identical time sequences stay identical — including every byte of
/// the color buffer.
pub proof fn lemma_deterministic(g1: GridView, g2: GridView, dt1: u32, dt2: u32)
    requires
        g1 == g2,
        dt1 == dt2,
    ensures
        spec_step(g1, dt1) == spec_step(g2, dt2),
{
}

} // verus!
