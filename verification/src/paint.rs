//! What it means to paint a region of a grid.

use vstd::prelude::*;
use crate::grid::Grid;
use crate::particle::is_fresh;
use crate::variant::Variant;

verus! {

/// `after` is `before` with a fresh particle of `variant` in every cell of
/// `region`, and with everything else as it was. Only the shades of the fresh
/// particles are left open: they are drawn at random.
pub open spec fn is_painted(
    before: Grid,
    after: Grid,
    region: spec_fn(int, int) -> bool,
    variant: Variant,
) -> bool {
    &&& after.wf()
    &&& after.same_frame(before)
    &&& forall|x: int, y: int|
        before.contains(x, y) ==> if region(x, y) {
            is_fresh(#[trigger] after.at(x, y), variant)
        } else {
            after.at(x, y) == before.at(x, y)
        }
}

/// The cell `(a, b)` comes before `(x, y)` when the columns are walked from
/// left to right, each from the top down.
pub open spec fn comes_before(a: int, b: int, x: int, y: int) -> bool {
    a < x || (a == x && b < y)
}

/// A grid is itself painted over any region that holds none of its cells.
pub proof fn lemma_paint_nothing(g: Grid, region: spec_fn(int, int) -> bool, variant: Variant)
    requires
        g.wf(),
        forall|a: int, b: int| g.contains(a, b) ==> !#[trigger] region(a, b),
    ensures
        is_painted(g, g, region, variant),
{
    assert forall|a: int, b: int| g.contains(a, b) implies if region(a, b) {
        is_fresh(#[trigger] g.at(a, b), variant)
    } else {
        g.at(a, b) == g.at(a, b)
    } by {
        assert(!region(a, b));
    }
}

/// Painting one more cell of a region extends what has been painted by that
/// cell.
pub proof fn lemma_paint_cell(
    before: Grid,
    now: Grid,
    after: Grid,
    done: spec_fn(int, int) -> bool,
    next: spec_fn(int, int) -> bool,
    variant: Variant,
    x: int,
    y: int,
)
    requires
        before.wf(),
        before.contains(x, y),
        is_painted(before, now, done, variant),
        is_fresh(after.at(x, y), variant),
        after == now.put(x, y, after.at(x, y)),
        forall|a: int, b: int| #[trigger] next(a, b) == (done(a, b) || (a == x && b == y)),
    ensures
        is_painted(before, after, next, variant),
{
    now.lemma_put(x, y, after.at(x, y));
    assert forall|a: int, b: int| before.contains(a, b) implies if next(a, b) {
        is_fresh(#[trigger] after.at(a, b), variant)
    } else {
        after.at(a, b) == before.at(a, b)
    } by {
        assert(next(a, b) == (done(a, b) || (a == x && b == y)));
        if !(a == x && b == y) {
            assert(after.at(a, b) == now.at(a, b));
        }
    }
}

/// What has been painted can be told by any region that holds the same cells
/// of the grid.
pub proof fn lemma_paint_same_region(
    before: Grid,
    after: Grid,
    done: spec_fn(int, int) -> bool,
    next: spec_fn(int, int) -> bool,
    variant: Variant,
)
    requires
        is_painted(before, after, done, variant),
        forall|a: int, b: int| before.contains(a, b) ==> #[trigger] next(a, b) == done(a, b),
    ensures
        is_painted(before, after, next, variant),
{
    assert forall|a: int, b: int| before.contains(a, b) implies if next(a, b) {
        is_fresh(#[trigger] after.at(a, b), variant)
    } else {
        after.at(a, b) == before.at(a, b)
    } by {
        assert(next(a, b) == done(a, b));
    }
}

} // verus!
