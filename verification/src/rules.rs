//! What the update rules and the tick do, stated over the grid's model.
//!
//! A rule looks at a fixed list of neighbours in a fixed order and moves the
//! particle to the first one that is open. The only free choice is the
//! lateral offset that the rule draws, `-1` or `0`; every function here takes
//! the draw as an argument.

use vstd::prelude::*;
use crate::grid::Grid;
use crate::particle::{Particle, canonical_empty};
use crate::variant::Variant;

verus! {

/// `dx` is one of the two lateral offsets that a rule can draw.
pub open spec fn is_dir(dx: int) -> bool {
    dx == -1 || dx == 0
}

/// Where sand in cell `(x, y)` moves when it has drawn `dx`: one row down,
/// to the first open cell among the columns `x + dx`, `x + dx + 1` and
/// `x + dx - 1`, tried in that order. `None` where none of them is open.
pub open spec fn sand_target(g: Grid, x: int, y: int, dx: int) -> Option<(int, int)> {
    if g.open_at(x + dx, y + 1) {
        Some((x + dx, y + 1))
    } else if g.open_at(x + dx + 1, y + 1) {
        Some((x + dx + 1, y + 1))
    } else if g.open_at(x + dx - 1, y + 1) {
        Some((x + dx - 1, y + 1))
    } else {
        None
    }
}

/// Where water in cell `(x, y)` moves when it has drawn `dx`: where sand
/// would; failing that to the left neighbour, then to the right one, if open.
pub open spec fn water_target(g: Grid, x: int, y: int, dx: int) -> Option<(int, int)> {
    match sand_target(g, x, y, dx) {
        Some(t) => Some(t),
        None => if g.open_at(x - 1, y) {
            Some((x - 1, y))
        } else if g.open_at(x + 1, y) {
            Some((x + 1, y))
        } else {
            None
        },
    }
}

/// Where the rule of `variant` moves the particle of cell `(x, y)`. Empty
/// cells and walls never move.
pub open spec fn target(variant: Variant, g: Grid, x: int, y: int, dx: int) -> Option<(int, int)> {
    match variant {
        Variant::Empty => None,
        Variant::Wall => None,
        Variant::Sand => sand_target(g, x, y, dx),
        Variant::Water => water_target(g, x, y, dx),
    }
}

/// The grid after the rule of `variant` has run once for the particle `p`
/// bound to cell `(x, y)`, with the draw `dx`.
pub open spec fn step(g: Grid, x: int, y: int, variant: Variant, p: Particle, dx: int) -> Grid {
    match target(variant, g, x, y, dx) {
        Some(t) => g.relocate(x, y, t.0, t.1, p),
        None => g,
    }
}

/// `after` is what one run of the rule of `variant` can make of `g`, for the
/// particle `p` bound to cell `(x, y)`: the result for one of the two draws.
pub open spec fn steps_to(g: Grid, x: int, y: int, variant: Variant, p: Particle, after: Grid) -> bool {
    after == step(g, x, y, variant, p, -1) || after == step(g, x, y, variant, p, 0)
}

/// `draws` holds one lateral offset for each cell of `g`, the one of cell
/// `(x, y)` at `g.index(x, y)`.
pub open spec fn is_draws(g: Grid, draws: Seq<i32>) -> bool {
    &&& draws.len() == g.cells.len()
    &&& forall|i: int| 0 <= i < draws.len() ==> is_dir(#[trigger] draws[i] as int)
}

/// The grid after the cell `(x, y)` has been visited: the rule of the
/// particle found there has run for it, with the cell's draw.
pub open spec fn visit(g: Grid, draws: Seq<i32>, x: int, y: int) -> Grid {
    let p = g.at(x, y);
    step(g, x, y, p.variant, p, draws[g.index(x, y)] as int)
}

/// The grid part of the way through a tick. The columns are visited from
/// left to right and each column from its bottom row up, so that a particle
/// that has fallen within its column, or to the left, is not met again in
/// the same tick. Here the columns `0..x` have been visited, and then the
/// lowest `k` cells of column `x`. Each visit sees what the visits before it
/// have written.
pub open spec fn scan(g: Grid, draws: Seq<i32>, x: int, k: int) -> Grid
    decreases x, k,
{
    if x < 0 || k < 0 {
        g
    } else if k > 0 {
        visit(scan(g, draws, x, k - 1), draws, x, g.height - k)
    } else if x > 0 {
        scan(g, draws, x - 1, g.height)
    } else {
        g
    }
}

/// The grid after one tick in which the cells drew `draws`: every cell has
/// been visited once, and the tick has been counted.
pub open spec fn tick_result(g: Grid, draws: Seq<i32>) -> Grid {
    scan(g, draws, g.width, 0).aged()
}

/// The scan has a place to stand at when the lowest `k` cells of column `x`
/// have been visited: in a column of the grid, or past the last column.
pub open spec fn is_scan_point(g: Grid, x: int, k: int) -> bool {
    &&& 0 <= x <= g.width
    &&& 0 <= k <= g.height
    &&& x < g.width || k == 0
}

/// The cell `(a, b)` has been visited when the scan has done the columns
/// `0..x` and the lowest `k` cells of column `x`.
pub open spec fn visited_before(g: Grid, a: int, b: int, x: int, k: int) -> bool {
    g.contains(a, b) && (a < x || (a == x && b >= g.height - k))
}

/// One run of a rule for a cell of the grid keeps the grid well formed and
/// changes nothing but cells.
pub proof fn lemma_step_frame(g: Grid, x: int, y: int, variant: Variant, p: Particle, dx: int)
    requires
        g.wf(),
        g.contains(x, y),
    ensures
        step(g, x, y, variant, p, dx).wf(),
        step(g, x, y, variant, p, dx).same_frame(g),
{
    match target(variant, g, x, y, dx) {
        Some(t) => {
            g.lemma_put_wf(t.0, t.1, p);
            g.put(t.0, t.1, p).lemma_put_wf(x, y, canonical_empty());
        },
        None => {},
    }
}

/// A scan, wherever it stands, has kept the grid well formed and changed
/// nothing but cells.
pub proof fn lemma_scan_frame(g: Grid, draws: Seq<i32>, x: int, k: int)
    requires
        g.wf(),
        is_scan_point(g, x, k),
    ensures
        scan(g, draws, x, k).wf(),
        scan(g, draws, x, k).same_frame(g),
    decreases x, k,
{
    if k > 0 {
        lemma_scan_frame(g, draws, x, k - 1);
        let s = scan(g, draws, x, k - 1);
        let y = g.height - k;
        let p = s.at(x, y);
        lemma_step_frame(s, x, y, p.variant, p, draws[s.index(x, y)] as int);
    } else if x > 0 {
        lemma_scan_frame(g, draws, x - 1, g.height);
    }
}

/// Where a scan stands depends only on the draws of the cells that it has
/// visited.
pub proof fn lemma_scan_reads_visited(g: Grid, d1: Seq<i32>, d2: Seq<i32>, x: int, k: int)
    requires
        g.wf(),
        is_scan_point(g, x, k),
        forall|a: int, b: int| #[trigger]
            visited_before(g, a, b, x, k) ==> d1[g.index(a, b)] == d2[g.index(a, b)],
    ensures
        scan(g, d1, x, k) == scan(g, d2, x, k),
    decreases x, k,
{
    if k > 0 {
        assert forall|a: int, b: int| #[trigger] visited_before(g, a, b, x, k - 1) implies d1[g.index(
            a,
            b,
        )] == d2[g.index(a, b)] by {
            assert(visited_before(g, a, b, x, k));
        }
        lemma_scan_reads_visited(g, d1, d2, x, k - 1);
        lemma_scan_frame(g, d1, x, k - 1);
        assert(visited_before(g, x, g.height - k, x, k));
    } else if x > 0 {
        assert forall|a: int, b: int| #[trigger]
            visited_before(g, a, b, x - 1, g.height) implies d1[g.index(a, b)] == d2[g.index(
            a,
            b,
        )] by {
            assert(visited_before(g, a, b, x, k));
        }
        lemma_scan_reads_visited(g, d1, d2, x - 1, g.height);
    }
}

/// Setting the draw of the cell that a scan visits next, which is
/// `(x, height - 1 - k)`, does not change what the scan has done so far, and
/// decides what it does there.
pub proof fn lemma_scan_next(g: Grid, draws: Seq<i32>, x: int, k: int, dx: i32)
    requires
        g.wf(),
        0 <= x < g.width,
        0 <= k < g.height,
        draws.len() == g.cells.len(),
    ensures
        scan(g, draws.update(g.index(x, g.height - 1 - k), dx), x, k) == scan(g, draws, x, k),
        scan(g, draws.update(g.index(x, g.height - 1 - k), dx), x, k + 1) == ({
            let s = scan(g, draws, x, k);
            let y = g.height - 1 - k;
            step(s, x, y, s.at(x, y).variant, s.at(x, y), dx as int)
        }),
{
    let y = g.height - 1 - k;
    let next = draws.update(g.index(x, y), dx);
    g.lemma_index_bounds(x, y);
    assert forall|a: int, b: int| #[trigger] visited_before(g, a, b, x, k) implies draws[g.index(
        a,
        b,
    )] == next[g.index(a, b)] by {
        g.lemma_index_bounds(a, b);
        if g.index(a, b) == g.index(x, y) {
            g.lemma_index_injective(a, b, x, y);
        }
    }
    lemma_scan_reads_visited(g, draws, next, x, k);
    lemma_scan_frame(g, draws, x, k);
}

} // verus!
