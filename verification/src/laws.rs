//! Laws of the simulation, proved of the model that the contracts speak of.

use vstd::prelude::*;
use crate::gameworld::in_frame;
use crate::grid::Grid;
use crate::paint::is_painted;
use crate::particle::{Particle, canonical_empty, is_fresh};
use crate::rules::{
    is_dir, is_draws, is_scan_point, lemma_scan_frame, lemma_step_frame, sand_target, scan, step,
    target, tick_result, visit, visited_before, water_target,
};
use crate::variant::Variant;

verus! {

/// No cell of `g` holds a particle that moves: each holds a wall or is empty.
pub open spec fn is_still(g: Grid) -> bool {
    forall|x: int, y: int|
        g.contains(x, y) ==> {
            let v = #[trigger] g.at(x, y).variant;
            v == Variant::Empty || v == Variant::Wall
        }
}

/// Every cell of `g` holds a wall.
pub open spec fn is_all_wall(g: Grid) -> bool {
    forall|x: int, y: int| g.contains(x, y) ==> #[trigger] g.at(x, y).variant == Variant::Wall
}

/// The grid after one tick for each entry of `rounds`, which holds the draws
/// of each tick in turn.
pub open spec fn ticks(g: Grid, rounds: Seq<Seq<i32>>) -> Grid
    decreases rounds.len(),
{
    if rounds.len() == 0 {
        g
    } else {
        tick_result(ticks(g, rounds.drop_last()), rounds.last())
    }
}

/// Nothing that moves can reach the last column or the last row of `g`: the
/// cells of the window that touch them hold walls, and those of the last
/// column and the last row hold walls or are empty.
///
/// A world with a frame of walls two cells thick is enclosed.
pub open spec fn is_enclosed(g: Grid) -> bool {
    forall|x: int, y: int|
        g.contains(x, y) && (x >= g.width - 2 || y >= g.height - 2) ==> {
            let v = #[trigger] g.at(x, y).variant;
            v == Variant::Wall || (v == Variant::Empty && !g.visible(x, y))
        }
}

/// Each entry of `rounds` holds the draws of one tick on a grid of the size
/// of `g`.
pub open spec fn are_rounds(g: Grid, rounds: Seq<Seq<i32>>) -> bool {
    forall|i: int| 0 <= i < rounds.len() ==> is_draws(g, #[trigger] rounds[i])
}

/// 1 for a particle that is not empty, 0 for one that is.
pub open spec fn weight(p: Particle) -> int {
    if p.variant == Variant::Empty {
        0
    } else {
        1
    }
}

/// A neighbour read outside the window, which is the grid without its last
/// column and its last row, yields the canonical empty particle, wherever the
/// coordinates lie.
pub proof fn lemma_read_outside_window(g: Grid, x: int, y: int)
    requires
        !(0 <= x < g.width - 1 && 0 <= y < g.height - 1),
    ensures
        g.read(x, y) == canonical_empty(),
{
}

/// Every cell of a newly made world holds the canonical empty particle.
pub proof fn lemma_new_world_is_empty(width: int, height: int, x: int, y: int)
    requires
        0 < width,
        0 < height,
        0 <= x < width,
        0 <= y < height,
    ensures
        Grid::blank(width, height).wf(),
        Grid::blank(width, height).at(x, y) == canonical_empty(),
{
    let g = Grid::blank(width, height);
    assert(0 < width * height) by (nonlinear_arith)
        requires
            0 < width,
            0 < height,
    ;
    g.lemma_index_bounds(x, y);
}

/// After a reset every cell holds the canonical empty particle, whatever it
/// held before, and nothing else about the world has changed.
pub proof fn lemma_reset_empties(g: Grid, x: int, y: int)
    requires
        g.wf(),
        g.contains(x, y),
    ensures
        g.cleared().wf(),
        g.cleared().at(x, y) == canonical_empty(),
        g.cleared().width == g.width,
        g.cleared().height == g.height,
{
    g.lemma_index_bounds(x, y);
}

/// A scan over a world in which nothing moves changes nothing.
pub proof fn lemma_still_scan(g: Grid, draws: Seq<i32>, x: int, k: int)
    requires
        g.wf(),
        is_still(g),
        is_scan_point(g, x, k),
    ensures
        scan(g, draws, x, k) == g,
    decreases x, k,
{
    if k > 0 {
        lemma_still_scan(g, draws, x, k - 1);
        assert(g.contains(x, g.height - k));
        let v = g.at(x, g.height - k).variant;
        assert(v == Variant::Empty || v == Variant::Wall);
    } else if x > 0 {
        lemma_still_scan(g, draws, x - 1, g.height);
    }
}

/// Ticks change no cell of a world in which nothing moves, however many
/// there are and whatever is drawn.
pub proof fn lemma_still_world_keeps_cells(g: Grid, rounds: Seq<Seq<i32>>)
    requires
        g.wf(),
        is_still(g),
    ensures
        ticks(g, rounds).cells == g.cells,
        ticks(g, rounds).width == g.width,
        ticks(g, rounds).height == g.height,
    decreases rounds.len(),
{
    if rounds.len() > 0 {
        lemma_still_world_keeps_cells(g, rounds.drop_last());
        let before = ticks(g, rounds.drop_last());
        assert(before.wf());
        assert forall|x: int, y: int| before.contains(x, y) implies ({
            let v = #[trigger] before.at(x, y).variant;
            v == Variant::Empty || v == Variant::Wall
        }) by {
            assert(g.contains(x, y));
            assert(before.at(x, y) == g.at(x, y));
        }
        lemma_still_scan(before, rounds.last(), before.width, 0);
    }
}

/// Ticks never change a cell of a world that holds walls only, however many
/// there are and whatever is drawn.
pub proof fn lemma_wall_world_never_changes(g: Grid, rounds: Seq<Seq<i32>>)
    requires
        g.wf(),
        is_all_wall(g),
    ensures
        ticks(g, rounds).cells == g.cells,
{
    assert forall|x: int, y: int| g.contains(x, y) implies ({
        let v = #[trigger] g.at(x, y).variant;
        v == Variant::Empty || v == Variant::Wall
    }) by {
        assert(g.at(x, y).variant == Variant::Wall);
    }
    lemma_still_world_keeps_cells(g, rounds);
}

/// Sand that moves goes down by exactly one row, and sideways by no more
/// than two columns to the left or one to the right.
pub proof fn lemma_sand_falls_one_row(g: Grid, x: int, y: int, dx: int)
    requires
        dx == -1 || dx == 0,
    ensures
        match sand_target(g, x, y, dx) {
            Some(t) => t.1 == y + 1 && x - 2 <= t.0 <= x + 1 && g.open_at(t.0, t.1),
            None => true,
        },
{
}

/// Sand whose three cells below are closed stays where it is, and the grid
/// is unchanged.
pub proof fn lemma_sand_rests(g: Grid, x: int, y: int, p: Particle, dx: int)
    requires
        !g.open_at(x + dx, y + 1),
        !g.open_at(x + dx + 1, y + 1),
        !g.open_at(x + dx - 1, y + 1),
    ensures
        step(g, x, y, Variant::Sand, p, dx) == g,
{
}

/// Sand with an open cell straight below its drawn column moves there, and
/// leaves the canonical empty particle behind.
pub proof fn lemma_sand_falls_straight(g: Grid, x: int, y: int, p: Particle, dx: int)
    requires
        g.wf(),
        g.contains(x, y),
        g.open_at(x + dx, y + 1),
    ensures
        step(g, x, y, Variant::Sand, p, dx) == g.relocate(x, y, x + dx, y + 1, p),
        step(g, x, y, Variant::Sand, p, dx).at(x + dx, y + 1) == p,
        step(g, x, y, Variant::Sand, p, dx).at(x, y) == canonical_empty(),
{
    lemma_relocate_cells(g, x, y, x + dx, y + 1, p);
}

/// The order of sand's candidates is fixed: with the first one closed and the
/// second one open, the one to its right, sand always moves to the second,
/// and the third, the one to its left, keeps what it held.
pub proof fn lemma_sand_prefers_right(g: Grid, x: int, y: int, p: Particle, dx: int)
    requires
        g.wf(),
        g.contains(x, y),
        !g.open_at(x + dx, y + 1),
        g.open_at(x + dx + 1, y + 1),
    ensures
        step(g, x, y, Variant::Sand, p, dx) == g.relocate(x, y, x + dx + 1, y + 1, p),
        step(g, x, y, Variant::Sand, p, dx).at(x + dx + 1, y + 1) == p,
        step(g, x, y, Variant::Sand, p, dx).at(x, y) == canonical_empty(),
        g.contains(x + dx - 1, y + 1) ==> step(g, x, y, Variant::Sand, p, dx).at(
            x + dx - 1,
            y + 1,
        ) == g.at(x + dx - 1, y + 1),
{
    lemma_relocate_cells(g, x, y, x + dx + 1, y + 1, p);
}

/// Water that cannot move down spreads to the left before the right: with
/// its three cells below closed and its left neighbour open, it moves left,
/// and its right neighbour keeps what it held, open or not.
pub proof fn lemma_water_prefers_left(g: Grid, x: int, y: int, p: Particle, dx: int)
    requires
        g.wf(),
        g.contains(x, y),
        !g.open_at(x + dx, y + 1),
        !g.open_at(x + dx + 1, y + 1),
        !g.open_at(x + dx - 1, y + 1),
        g.open_at(x - 1, y),
    ensures
        step(g, x, y, Variant::Water, p, dx) == g.relocate(x, y, x - 1, y, p),
        step(g, x, y, Variant::Water, p, dx).at(x - 1, y) == p,
        step(g, x, y, Variant::Water, p, dx).at(x, y) == canonical_empty(),
        g.contains(x + 1, y) ==> step(g, x, y, Variant::Water, p, dx).at(x + 1, y) == g.at(
            x + 1,
            y,
        ),
{
    lemma_relocate_cells(g, x, y, x - 1, y, p);
}

/// Water moves down wherever sand would, and to the same cell.
pub proof fn lemma_water_falls_like_sand(g: Grid, x: int, y: int, dx: int)
    requires
        sand_target(g, x, y, dx) is Some,
    ensures
        water_target(g, x, y, dx) == sand_target(g, x, y, dx),
{
}

/// What a move leaves in each cell: the particle at its destination, the
/// canonical empty particle at its origin, and everywhere else what was
/// there.
pub proof fn lemma_relocate_cells(g: Grid, x: int, y: int, tx: int, ty: int, p: Particle)
    requires
        g.wf(),
        g.contains(x, y),
        g.contains(tx, ty),
        x != tx || y != ty,
    ensures
        g.relocate(x, y, tx, ty, p).wf(),
        g.relocate(x, y, tx, ty, p).at(tx, ty) == p,
        g.relocate(x, y, tx, ty, p).at(x, y) == canonical_empty(),
        forall|a: int, b: int|
            g.contains(a, b) && !(a == x && b == y) && !(a == tx && b == ty) ==> #[trigger]
                g.relocate(x, y, tx, ty, p).at(a, b) == g.at(a, b),
{
    let g1 = g.put(tx, ty, p);
    g.lemma_put_wf(tx, ty, p);
    g1.lemma_put_wf(x, y, canonical_empty());
    g.lemma_put_at(tx, ty, p, tx, ty);
    g1.lemma_put_at(x, y, canonical_empty(), tx, ty);
    g1.lemma_put_at(x, y, canonical_empty(), x, y);
    assert forall|a: int, b: int|
        g.contains(a, b) && !(a == x && b == y) && !(a == tx && b == ty) implies #[trigger]
        g.relocate(x, y, tx, ty, p).at(a, b) == g.at(a, b) by {
        g.lemma_put_at(tx, ty, p, a, b);
        g1.lemma_put_at(x, y, canonical_empty(), a, b);
    }
}

/// One run of a rule either leaves the grid as it is or moves the particle
/// once: it then stands in one open cell, the cell it was bound to holds the
/// canonical empty particle, and every other cell holds what it held.
pub proof fn lemma_step_moves_once_or_stays(
    g: Grid,
    x: int,
    y: int,
    variant: Variant,
    p: Particle,
    dx: int,
)
    requires
        g.wf(),
        g.contains(x, y),
    ensures
        match target(variant, g, x, y, dx) {
            Some(t) => {
                &&& g.open_at(t.0, t.1)
                &&& step(g, x, y, variant, p, dx).at(t.0, t.1) == p
                &&& step(g, x, y, variant, p, dx).at(x, y) == canonical_empty()
                &&& forall|a: int, b: int|
                    g.contains(a, b) && !(a == x && b == y) && !(a == t.0 && b == t.1)
                        ==> #[trigger] step(g, x, y, variant, p, dx).at(a, b) == g.at(a, b)
            },
            None => step(g, x, y, variant, p, dx) == g,
        },
{
    match target(variant, g, x, y, dx) {
        Some(t) => {
            lemma_relocate_cells(g, x, y, t.0, t.1, p);
        },
        None => {},
    }
}

/// Writing a cell changes the count of occupied cells by the weight of what
/// comes in less the weight of what was there.
pub proof fn lemma_put_occupied(g: Grid, x: int, y: int, p: Particle)
    requires
        g.wf(),
        g.contains(x, y),
    ensures
        g.put(x, y, p).occupied() == g.occupied() + weight(p) - weight(g.at(x, y)),
{
    g.lemma_index_bounds(x, y);
    lemma_put_occupied_upto(g, x, y, p, g.cells.len() as int);
}

proof fn lemma_put_occupied_upto(g: Grid, x: int, y: int, p: Particle, n: int)
    requires
        g.wf(),
        g.contains(x, y),
        0 <= n <= g.cells.len(),
        0 <= g.index(x, y) < g.cells.len(),
    ensures
        g.put(x, y, p).occupied_upto(n) == g.occupied_upto(n) + (if g.index(x, y) < n {
            weight(p) - weight(g.at(x, y))
        } else {
            0
        }),
    decreases n,
{
    if n > 0 {
        lemma_put_occupied_upto(g, x, y, p, n - 1);
    }
}

/// A visit never adds to the occupied cells. It takes one away exactly when
/// the particle moves onto a cell that was occupied, which only a cell
/// outside the window can be.
pub proof fn lemma_visit_occupied(g: Grid, draws: Seq<i32>, x: int, y: int)
    requires
        g.wf(),
        g.contains(x, y),
    ensures
        visit(g, draws, x, y).occupied() == g.occupied() - (match target(
            g.at(x, y).variant,
            g,
            x,
            y,
            draws[g.index(x, y)] as int,
        ) {
            Some(t) => weight(g.at(t.0, t.1)),
            None => 0,
        }),
        visit(g, draws, x, y).occupied() <= g.occupied(),
        match target(g.at(x, y).variant, g, x, y, draws[g.index(x, y)] as int) {
            Some(t) => g.visible(t.0, t.1) ==> weight(g.at(t.0, t.1)) == 0,
            None => true,
        },
{
    let p = g.at(x, y);
    let dx = draws[g.index(x, y)] as int;
    match target(p.variant, g, x, y, dx) {
        Some(t) => {
            assert(g.open_at(t.0, t.1));
            assert(p.variant == Variant::Sand || p.variant == Variant::Water);
            let g1 = g.put(t.0, t.1, p);
            g.lemma_put_wf(t.0, t.1, p);
            lemma_put_occupied(g, t.0, t.1, p);
            lemma_put_occupied(g1, x, y, canonical_empty());
            g.lemma_put_at(t.0, t.1, p, x, y);
        },
        None => {},
    }
}

/// A scan never adds to the occupied cells.
pub proof fn lemma_scan_occupied(g: Grid, draws: Seq<i32>, x: int, k: int)
    requires
        g.wf(),
        is_scan_point(g, x, k),
    ensures
        scan(g, draws, x, k).occupied() <= g.occupied(),
    decreases x, k,
{
    if k > 0 {
        lemma_scan_occupied(g, draws, x, k - 1);
        lemma_scan_frame(g, draws, x, k - 1);
        lemma_visit_occupied(scan(g, draws, x, k - 1), draws, x, g.height - k);
    } else if x > 0 {
        lemma_scan_occupied(g, draws, x - 1, g.height);
    }
}

/// A tick creates no particle: the number of occupied cells never goes up.
pub proof fn lemma_tick_never_adds(g: Grid, draws: Seq<i32>)
    requires
        g.wf(),
    ensures
        tick_result(g, draws).occupied() <= g.occupied(),
{
    lemma_scan_occupied(g, draws, g.width, 0);
    let s = scan(g, draws, g.width, 0);
    lemma_occupied_of_cells(s, s.aged(), s.cells.len() as int);
}

/// The only particle of `g` that moves is the one in cell `(x, y)`: every
/// other cell holds a wall or is empty.
pub open spec fn is_lone_mover(g: Grid, x: int, y: int) -> bool {
    &&& g.contains(x, y)
    &&& forall|a: int, b: int|
        g.contains(a, b) && !(a == x && b == y) ==> {
            let v = #[trigger] g.at(a, b).variant;
            v == Variant::Empty || v == Variant::Wall
        }
}

/// A particle that moves from `(x, y)` to `t`, if it moves at all, lands
/// behind the scan: in a column to the left, or lower in its own column, both
/// of which the tick has visited when it comes to `(x, y)`.
pub open spec fn lands_behind(x: int, y: int, t: Option<(int, int)>) -> bool {
    match t {
        Some(t) => t.0 < x || (t.0 == x && t.1 > y),
        None => true,
    }
}

/// `after` is `g` after the particle of cell `(x, y)` has fallen `n` rows
/// straight down: it stands in `(x, y + n)`, the cells it has left hold the
/// canonical empty particle, and every other cell holds what it held.
pub open spec fn is_fallen(g: Grid, after: Grid, x: int, y: int, n: int) -> bool {
    &&& after.wf()
    &&& after.width == g.width
    &&& after.height == g.height
    &&& after.at(x, y + n) == g.at(x, y)
    &&& forall|j: int| 0 <= j < n ==> #[trigger] after.at(x, y + j) == canonical_empty()
    &&& forall|a: int, b: int|
        g.contains(a, b) && !(a == x && y <= b <= y + n) ==> #[trigger] after.at(a, b) == g.at(
            a,
            b,
        )
}

/// In a world whose only mover lands behind the scan, a scan has done one
/// thing at most: the visit of the mover's cell, once it has come to it.
pub proof fn lemma_lone_mover_scan(g: Grid, draws: Seq<i32>, x: int, y: int, sx: int, k: int)
    requires
        g.wf(),
        is_lone_mover(g, x, y),
        is_scan_point(g, sx, k),
        lands_behind(x, y, target(g.at(x, y).variant, g, x, y, draws[g.index(x, y)] as int)),
    ensures
        scan(g, draws, sx, k) == (if visited_before(g, x, y, sx, k) {
            visit(g, draws, x, y)
        } else {
            g
        }),
    decreases sx, k,
{
    if k > 0 {
        lemma_lone_mover_scan(g, draws, x, y, sx, k - 1);
        let cy = g.height - k;
        let prev = scan(g, draws, sx, k - 1);
        if !(sx == x && cy == y) {
            assert(g.contains(sx, cy));
            let v = g.at(sx, cy).variant;
            assert(v == Variant::Empty || v == Variant::Wall);
            if visited_before(g, x, y, sx, k - 1) {
                let p = g.at(x, y);
                let dx = draws[g.index(x, y)] as int;
                lemma_step_moves_once_or_stays(g, x, y, p.variant, p, dx);
                lemma_step_frame(g, x, y, p.variant, p, dx);
                assert(prev.at(sx, cy) == g.at(sx, cy));
            }
        }
    } else if sx > 0 {
        lemma_lone_mover_scan(g, draws, x, y, sx - 1, g.height);
    }
}

/// A tick of a world whose only mover lands behind the scan is one run of
/// the mover's rule: the particle moves once, or stays.
pub proof fn lemma_lone_mover_tick(g: Grid, draws: Seq<i32>, x: int, y: int)
    requires
        g.wf(),
        is_lone_mover(g, x, y),
        lands_behind(x, y, target(g.at(x, y).variant, g, x, y, draws[g.index(x, y)] as int)),
    ensures
        tick_result(g, draws) == visit(g, draws, x, y).aged(),
{
    lemma_lone_mover_scan(g, draws, x, y, g.width, 0);
}

/// A single grain of sand above an empty cell of the window falls by exactly
/// one row in a tick: into its own column when it draws 0, into the column to
/// its left when it draws -1. The cell it leaves holds the canonical empty
/// particle, no other cell changes, the number of occupied cells stays, and
/// the grain is still the only particle that moves.
pub proof fn lemma_lone_grain_falls_one_row_per_tick(g: Grid, draws: Seq<i32>, x: int, y: int)
    requires
        g.wf(),
        is_draws(g, draws),
        is_lone_mover(g, x, y),
        g.at(x, y).variant == Variant::Sand,
        g.visible(x + draws[g.index(x, y)], y + 1),
        g.at(x + draws[g.index(x, y)], y + 1).variant == Variant::Empty,
    ensures
        ({
            let dx = draws[g.index(x, y)] as int;
            let after = tick_result(g, draws);
            &&& is_dir(dx)
            &&& after.wf()
            &&& after.width == g.width
            &&& after.height == g.height
            &&& after.at(x + dx, y + 1) == g.at(x, y)
            &&& after.at(x, y) == canonical_empty()
            &&& forall|a: int, b: int|
                g.contains(a, b) && !(a == x && b == y) && !(a == x + dx && b == y + 1)
                    ==> #[trigger] after.at(a, b) == g.at(a, b)
            &&& after.occupied() == g.occupied()
            &&& is_lone_mover(after, x + dx, y + 1)
        }),
{
    g.lemma_index_bounds(x, y);
    let p = g.at(x, y);
    let dx = draws[g.index(x, y)] as int;
    assert(is_dir(dx));
    assert(g.open_at(x + dx, y + 1));
    assert(target(p.variant, g, x, y, dx) == Some((x + dx, y + 1)));
    lemma_lone_mover_tick(g, draws, x, y);
    lemma_step_moves_once_or_stays(g, x, y, p.variant, p, dx);
    lemma_step_frame(g, x, y, p.variant, p, dx);
    lemma_visit_occupied(g, draws, x, y);
    let s = step(g, x, y, p.variant, p, dx);
    let after = tick_result(g, draws);
    assert(s == visit(g, draws, x, y));
    assert(after == s.aged());
    lemma_occupied_of_cells(s, after, s.cells.len() as int);
    assert(after.at(x + dx, y + 1) == s.at(x + dx, y + 1));
    assert(after.at(x, y) == s.at(x, y));
    assert forall|a: int, b: int|
        g.contains(a, b) && !(a == x && b == y) && !(a == x + dx && b == y + 1) implies #[trigger]
        after.at(a, b) == g.at(a, b) by {
        assert(after.at(a, b) == s.at(a, b));
    }
    assert forall|a: int, b: int|
        after.contains(a, b) && !(a == x + dx && b == y + 1) implies ({
        let v = #[trigger] after.at(a, b).variant;
        v == Variant::Empty || v == Variant::Wall
    }) by {
        if !(a == x && b == y) {
            assert(g.contains(a, b));
            assert(after.at(a, b) == g.at(a, b));
            let v = g.at(a, b).variant;
            assert(v == Variant::Empty || v == Variant::Wall);
        }
    }
}

/// A single grain of sand above empty cells of the window falls straight
/// down by one row per tick, as long as it draws 0: after `n` ticks it
/// stands `n` rows lower, and the number of occupied cells is what it was.
pub proof fn lemma_lone_grain_falls_straight(g: Grid, rounds: Seq<Seq<i32>>, x: int, y: int)
    requires
        g.wf(),
        are_rounds(g, rounds),
        is_lone_mover(g, x, y),
        g.at(x, y).variant == Variant::Sand,
        forall|j: int|
            1 <= j <= rounds.len() ==> g.visible(x, y + j) && #[trigger] g.at(x, y + j).variant
                == Variant::Empty,
        forall|i: int| 0 <= i < rounds.len() ==> (#[trigger] rounds[i])[g.index(x, y + i)] == 0,
    ensures
        is_fallen(g, ticks(g, rounds), x, y, rounds.len() as int),
        is_lone_mover(ticks(g, rounds), x, y + rounds.len()),
        ticks(g, rounds).occupied() == g.occupied(),
    decreases rounds.len(),
{
    let n = rounds.len() as int;
    if n > 0 {
        let earlier = rounds.drop_last();
        assert forall|i: int| 0 <= i < earlier.len() implies is_draws(g, #[trigger] earlier[i]) by {
            assert(earlier[i] == rounds[i]);
        }
        assert forall|i: int| 0 <= i < earlier.len() implies (#[trigger] earlier[i])[g.index(
            x,
            y + i,
        )] == 0 by {
            assert(earlier[i] == rounds[i]);
        }
        lemma_lone_grain_falls_straight(g, earlier, x, y);
        let m = ticks(g, earlier);
        let draws = rounds.last();
        assert(draws == rounds[n - 1]);
        assert(is_draws(g, draws));
        assert(m.index(x, y + n - 1) == g.index(x, y + n - 1));
        assert(g.visible(x, y + n) && g.at(x, y + n).variant == Variant::Empty);
        assert(m.at(x, y + n) == g.at(x, y + n));
        lemma_lone_grain_falls_one_row_per_tick(m, draws, x, y + n - 1);
        let after = ticks(g, rounds);
        assert(after == tick_result(m, draws));
        assert forall|j: int| 0 <= j < n implies #[trigger] after.at(x, y + j)
            == canonical_empty() by {
            if j < n - 1 {
                assert(m.at(x, y + j) == canonical_empty());
                assert(m.contains(x, y + j));
            }
        }
        assert forall|a: int, b: int|
            g.contains(a, b) && !(a == x && y <= b <= y + n) implies #[trigger] after.at(a, b)
            == g.at(a, b) by {
            assert(m.at(a, b) == g.at(a, b));
        }
    }
}

/// On a grid of 5 by 5 cells with walls in its bottom row and one grain of
/// sand at `(2, 0)`, a grain that draws 0 stands at `(2, 1)` after one tick
/// and at `(2, 3)`, right above the walls, after three. The cells it has left
/// are empty, nothing else has changed, and the walls are all there.
pub proof fn lemma_grain_over_floor(g: Grid, rounds: Seq<Seq<i32>>)
    requires
        g.wf(),
        g.width == 5,
        g.height == 5,
        g.at(2, 0).variant == Variant::Sand,
        forall|x: int, y: int|
            g.contains(x, y) && !(x == 2 && y == 0) ==> #[trigger] g.at(x, y).variant == (if y
                == 4 {
                Variant::Wall
            } else {
                Variant::Empty
            }),
        are_rounds(g, rounds),
        1 <= rounds.len() <= 3,
        forall|i: int| 0 <= i < rounds.len() ==> (#[trigger] rounds[i])[g.index(2, i)] == 0,
    ensures
        ticks(g, rounds).at(2, rounds.len() as int) == g.at(2, 0),
        forall|x: int, y: int|
            g.contains(x, y) && !(x == 2 && y == rounds.len()) ==> #[trigger] ticks(g, rounds).at(
                x,
                y,
            ).variant == (if y == 4 {
                Variant::Wall
            } else {
                Variant::Empty
            }),
        ticks(g, rounds).occupied() == g.occupied(),
{
    let n = rounds.len() as int;
    assert forall|a: int, b: int| g.contains(a, b) && !(a == 2 && b == 0) implies ({
        let v = #[trigger] g.at(a, b).variant;
        v == Variant::Empty || v == Variant::Wall
    }) by {}
    assert forall|j: int| 1 <= j <= n implies g.visible(2, j) && #[trigger] g.at(2, j).variant
        == Variant::Empty by {
        assert(g.contains(2, j));
    }
    lemma_lone_grain_falls_straight(g, rounds, 2, 0);
    let after = ticks(g, rounds);
    assert forall|x: int, y: int| g.contains(x, y) && !(x == 2 && y == n) implies #[trigger]
        after.at(x, y).variant == (if y == 4 {
        Variant::Wall
    } else {
        Variant::Empty
    }) by {
        if x == 2 && 0 <= y < n {
            assert(after.at(2, 0 + y) == canonical_empty());
        } else {
            assert(after.at(x, y) == g.at(x, y));
        }
    }
}

/// In an enclosed world a visit keeps the world enclosed and moves a particle
/// onto an empty cell only, so that the count of occupied cells stays.
pub proof fn lemma_enclosed_visit(g: Grid, draws: Seq<i32>, x: int, y: int)
    requires
        g.wf(),
        g.contains(x, y),
        is_enclosed(g),
        is_draws(g, draws),
    ensures
        is_enclosed(visit(g, draws, x, y)),
        visit(g, draws, x, y).occupied() == g.occupied(),
{
    let p = g.at(x, y);
    g.lemma_index_bounds(x, y);
    let dx = draws[g.index(x, y)] as int;
    assert(is_dir(dx));
    lemma_visit_occupied(g, draws, x, y);
    lemma_step_frame(g, x, y, p.variant, p, dx);
    match target(p.variant, g, x, y, dx) {
        Some(t) => {
            assert(p.variant == Variant::Sand || p.variant == Variant::Water);
            assert(x < g.width - 2 && y < g.height - 2);
            assert(g.open_at(t.0, t.1));
            assert(g.visible(t.0, t.1));
            assert(g.at(t.0, t.1).variant == Variant::Empty);
            assert(t.0 < g.width - 2 && t.1 < g.height - 2);
            lemma_relocate_cells(g, x, y, t.0, t.1, p);
            let after = visit(g, draws, x, y);
            assert(after == g.relocate(x, y, t.0, t.1, p));
            assert forall|a: int, b: int|
                after.contains(a, b) && (a >= after.width - 2 || b >= after.height - 2) implies ({
                let v = #[trigger] after.at(a, b).variant;
                v == Variant::Wall || (v == Variant::Empty && !after.visible(a, b))
            }) by {
                assert(g.contains(a, b));
                assert(after.at(a, b) == g.at(a, b));
                let v = g.at(a, b).variant;
                assert(v == Variant::Wall || (v == Variant::Empty && !g.visible(a, b)));
            }
        },
        None => {},
    }
}

/// A scan keeps an enclosed world enclosed and its count of occupied cells.
pub proof fn lemma_enclosed_scan(g: Grid, draws: Seq<i32>, x: int, k: int)
    requires
        g.wf(),
        is_enclosed(g),
        is_draws(g, draws),
        is_scan_point(g, x, k),
    ensures
        is_enclosed(scan(g, draws, x, k)),
        scan(g, draws, x, k).occupied() == g.occupied(),
    decreases x, k,
{
    if k > 0 {
        lemma_enclosed_scan(g, draws, x, k - 1);
        lemma_scan_frame(g, draws, x, k - 1);
        lemma_enclosed_visit(scan(g, draws, x, k - 1), draws, x, g.height - k);
    } else if x > 0 {
        lemma_enclosed_scan(g, draws, x - 1, g.height);
    }
}

/// In an enclosed world a tick moves particles and neither makes nor
/// destroys any: the number of occupied cells is the same after it, and the
/// world is still enclosed.
pub proof fn lemma_enclosed_tick_conserves(g: Grid, draws: Seq<i32>)
    requires
        g.wf(),
        is_enclosed(g),
        is_draws(g, draws),
    ensures
        tick_result(g, draws).wf(),
        is_enclosed(tick_result(g, draws)),
        tick_result(g, draws).occupied() == g.occupied(),
        tick_result(g, draws).width == g.width,
        tick_result(g, draws).height == g.height,
{
    lemma_enclosed_scan(g, draws, g.width, 0);
    lemma_scan_frame(g, draws, g.width, 0);
    let s = scan(g, draws, g.width, 0);
    lemma_occupied_of_cells(s, s.aged(), s.cells.len() as int);
    assert forall|x: int, y: int|
        s.aged().contains(x, y) && (x >= s.aged().width - 2 || y >= s.aged().height - 2) implies ({
        let v = #[trigger] s.aged().at(x, y).variant;
        v == Variant::Wall || (v == Variant::Empty && !s.aged().visible(x, y))
    }) by {
        assert(s.contains(x, y));
        let v = s.at(x, y).variant;
        assert(v == Variant::Wall || (v == Variant::Empty && !s.visible(x, y)));
    }
}

/// In an enclosed world the number of occupied cells is the same after any
/// number of ticks.
pub proof fn lemma_enclosed_world_conserves(g: Grid, rounds: Seq<Seq<i32>>)
    requires
        g.wf(),
        is_enclosed(g),
        are_rounds(g, rounds),
    ensures
        ticks(g, rounds).wf(),
        is_enclosed(ticks(g, rounds)),
        ticks(g, rounds).occupied() == g.occupied(),
        ticks(g, rounds).width == g.width,
        ticks(g, rounds).height == g.height,
        ticks(g, rounds).cells.len() == g.cells.len(),
    decreases rounds.len(),
{
    if rounds.len() > 0 {
        let earlier = rounds.drop_last();
        assert forall|i: int| 0 <= i < earlier.len() implies is_draws(g, #[trigger] earlier[i]) by {
            assert(earlier[i] == rounds[i]);
        }
        lemma_enclosed_world_conserves(g, earlier);
        let before = ticks(g, earlier);
        assert(is_draws(g, rounds[rounds.len() - 1]));
        lemma_enclosed_tick_conserves(before, rounds.last());
    }
}

/// A world that has just been framed by walls two cells thick is enclosed,
/// so that ticks keep its number of particles.
pub proof fn lemma_framed_world_is_enclosed(width: int, height: int, g: Grid)
    requires
        0 < width,
        0 < height,
        is_painted(
            Grid::blank(width, height),
            g,
            |x: int, y: int| in_frame(width, height, x, y),
            Variant::Wall,
        ),
    ensures
        g.wf(),
        is_enclosed(g),
{
    assert forall|x: int, y: int|
        g.contains(x, y) && (x >= g.width - 2 || y >= g.height - 2) implies ({
        let v = #[trigger] g.at(x, y).variant;
        v == Variant::Wall || (v == Variant::Empty && !g.visible(x, y))
    }) by {
        assert(Grid::blank(width, height).contains(x, y));
        assert(in_frame(width, height, x, y));
        assert(is_fresh(g.at(x, y), Variant::Wall));
    }
}

/// The count of occupied cells depends on the cells alone.
pub proof fn lemma_occupied_of_cells(g: Grid, other: Grid, n: int)
    requires
        g.cells == other.cells,
    ensures
        g.occupied_upto(n) == other.occupied_upto(n),
    decreases n,
{
    if n > 0 {
        lemma_occupied_of_cells(g, other, n - 1);
    }
}

} // verus!
