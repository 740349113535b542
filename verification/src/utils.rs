//! Strokes that a front end makes on a world directly.

use vstd::prelude::*;
use crate::grid::Grid;
use crate::paint::{
    comes_before, is_painted, lemma_paint_cell, lemma_paint_nothing, lemma_paint_same_region,
};
use crate::variant::Variant;
use crate::world::World;

verus! {

/// The cell `(x, y)` lies on the edge of a grid of `width` by `height` cells.
pub open spec fn on_edge(width: int, height: int, x: int, y: int) -> bool {
    x == 0 || x == width - 1 || y == 0 || y == height - 1
}

/// The offset `(dx, dy)` lies in the disc of `radius` that the eraser
/// covers: both parts are at least `-radius` and below `radius`, and the
/// offset is closer to the centre than `radius`.
pub open spec fn in_disc(dx: int, dy: int, radius: int) -> bool {
    &&& -radius <= dx < radius
    &&& -radius <= dy < radius
    &&& dx * dx + dy * dy < radius * radius
}

/// Puts fresh walls into the cells on the edge of the world: the first and
/// the last row, the first and the last column.
pub fn draw_walls(world: &mut World)
    ensures
        is_painted(
            old(world)@,
            final(world)@,
            |x: int, y: int| on_edge(old(world)@.width, old(world)@.height, x, y),
            Variant::Wall,
        ),
{
    let ghost before = world@;
    let width = world.width();
    let height = world.height();
    let ghost w = width as int;
    let ghost h = height as int;
    proof {
        lemma_paint_nothing(before, |a: int, b: int| (b == 0 || b == h - 1) && a < 0, Variant::Wall);
    }
    let mut x: i32 = 0;
    while x < width
        invariant
            0 <= x <= width,
            before.wf(),
            before == old(world)@,
            w == width == before.width,
            h == height == before.height,
            is_painted(
                before,
                world@,
                |a: int, b: int| (b == 0 || b == h - 1) && a < x,
                Variant::Wall,
            ),
        decreases width - x,
    {
        let ghost now = world@;
        world.set_particle(x, 0, Variant::Wall);
        let ghost mid = world@;
        proof {
            lemma_paint_cell(
                before,
                now,
                mid,
                |a: int, b: int| (b == 0 || b == h - 1) && a < x,
                |a: int, b: int| ((b == 0 || b == h - 1) && a < x) || (a == x && b == 0),
                Variant::Wall,
                x as int,
                0,
            );
        }
        world.set_particle(x, height - 1, Variant::Wall);
        proof {
            lemma_paint_cell(
                before,
                mid,
                world@,
                |a: int, b: int| ((b == 0 || b == h - 1) && a < x) || (a == x && b == 0),
                |a: int, b: int| (b == 0 || b == h - 1) && a < x + 1,
                Variant::Wall,
                x as int,
                h - 1,
            );
        }
        x += 1;
    }
    proof {
        lemma_paint_same_region(
            before,
            world@,
            |a: int, b: int| (b == 0 || b == h - 1) && a < x,
            |a: int, b: int| (b == 0 || b == h - 1) || ((a == 0 || a == w - 1) && b < 0),
            Variant::Wall,
        );
    }
    let mut y: i32 = 0;
    while y < height
        invariant
            0 <= y <= height,
            before.wf(),
            before == old(world)@,
            w == width == before.width,
            h == height == before.height,
            is_painted(
                before,
                world@,
                |a: int, b: int| (b == 0 || b == h - 1) || ((a == 0 || a == w - 1) && b < y),
                Variant::Wall,
            ),
        decreases height - y,
    {
        let ghost now = world@;
        world.set_particle(0, y, Variant::Wall);
        let ghost mid = world@;
        proof {
            lemma_paint_cell(
                before,
                now,
                mid,
                |a: int, b: int| (b == 0 || b == h - 1) || ((a == 0 || a == w - 1) && b < y),
                |a: int, b: int|
                    ((b == 0 || b == h - 1) || ((a == 0 || a == w - 1) && b < y)) || (a == 0 && b
                        == y),
                Variant::Wall,
                0,
                y as int,
            );
        }
        world.set_particle(width - 1, y, Variant::Wall);
        proof {
            lemma_paint_cell(
                before,
                mid,
                world@,
                |a: int, b: int|
                    ((b == 0 || b == h - 1) || ((a == 0 || a == w - 1) && b < y)) || (a == 0 && b
                        == y),
                |a: int, b: int| (b == 0 || b == h - 1) || ((a == 0 || a == w - 1) && b < y + 1),
                Variant::Wall,
                w - 1,
                y as int,
            );
        }
        y += 1;
    }
    proof {
        lemma_paint_same_region(
            before,
            world@,
            |a: int, b: int| (b == 0 || b == h - 1) || ((a == 0 || a == w - 1) && b < y),
            |a: int, b: int| on_edge(before.width, before.height, a, b),
            Variant::Wall,
        );
    }
}

/// Puts fresh empty particles into the disc of `radius` around `(x, y)`.
///
/// Every cell of the disc must be a cell of the grid.
pub fn erase_radius(world: &mut World, x: i32, y: i32, radius: i32)
    requires
        forall|dx: int, dy: int|
            in_disc(dx, dy, radius as int) ==> old(world)@.contains(x + dx, y + dy),
    ensures
        is_painted(
            old(world)@,
            final(world)@,
            |a: int, b: int| in_disc(a - x, b - y, radius as int),
            Variant::Empty,
        ),
{
    let ghost before = world@;
    let ghost r = radius as int;
    let width = world.width();
    let height = world.height();
    let r64: i64 = radius as i64;
    proof {
        lemma_paint_nothing(
            before,
            |a: int, b: int| in_disc(a - x, b - y, r) && comes_before(a - x, b - y, -r, -r),
            Variant::Empty,
        );
    }
    let mut dx: i64 = -r64;
    while dx < r64
        invariant
            -r64 <= dx,
            dx <= r64 || r64 < 0,
            r == radius == r64,
            width == before.width,
            height == before.height,
            before.wf(),
            before == old(world)@,
            forall|dx: int, dy: int| in_disc(dx, dy, r) ==> before.contains(x + dx, y + dy),
            is_painted(
                before,
                world@,
                |a: int, b: int| in_disc(a - x, b - y, r) && comes_before(a - x, b - y, dx as int, -r),
                Variant::Empty,
            ),
        decreases r64 - dx,
    {
        let mut dy: i64 = -r64;
        while dy < r64
            invariant
                -r64 <= dx < r64,
                -r64 <= dy <= r64,
                r == radius == r64,
                width == before.width,
                height == before.height,
                before.wf(),
                before == old(world)@,
                forall|dx: int, dy: int| in_disc(dx, dy, r) ==> before.contains(x + dx, y + dy),
                is_painted(
                    before,
                    world@,
                    |a: int, b: int|
                        in_disc(a - x, b - y, r) && comes_before(a - x, b - y, dx as int, dy as int),
                    Variant::Empty,
                ),
            decreases r64 - dy,
        {
            let ghost now = world@;
            proof {
                lemma_square_fits(dx as int, r);
                lemma_square_fits(dy as int, r);
                lemma_square_fits(r, r);
            }
            if dx * dx + dy * dy < r64 * r64 {
                assert(in_disc(dx as int, dy as int, r));
                assert(before.contains(x + dx, y + dy));
                world.set_particle((x as i64 + dx) as i32, (y as i64 + dy) as i32, Variant::Empty);
                proof {
                    lemma_paint_cell(
                        before,
                        now,
                        world@,
                        |a: int, b: int|
                            in_disc(a - x, b - y, r) && comes_before(
                                a - x,
                                b - y,
                                dx as int,
                                dy as int,
                            ),
                        |a: int, b: int|
                            in_disc(a - x, b - y, r) && comes_before(a - x, b - y, dx as int, dy + 1),
                        Variant::Empty,
                        x + dx,
                        y + dy,
                    );
                }
            } else {
                proof {
                    lemma_paint_same_region(
                        before,
                        now,
                        |a: int, b: int|
                            in_disc(a - x, b - y, r) && comes_before(
                                a - x,
                                b - y,
                                dx as int,
                                dy as int,
                            ),
                        |a: int, b: int|
                            in_disc(a - x, b - y, r) && comes_before(a - x, b - y, dx as int, dy + 1),
                        Variant::Empty,
                    );
                }
            }
            dy += 1;
        }
        proof {
            lemma_paint_same_region(
                before,
                world@,
                |a: int, b: int|
                    in_disc(a - x, b - y, r) && comes_before(a - x, b - y, dx as int, dy as int),
                |a: int, b: int| in_disc(a - x, b - y, r) && comes_before(a - x, b - y, dx + 1, -r),
                Variant::Empty,
            );
        }
        dx += 1;
    }
    proof {
        lemma_paint_same_region(
            before,
            world@,
            |a: int, b: int| in_disc(a - x, b - y, r) && comes_before(a - x, b - y, dx as int, -r),
            |a: int, b: int| in_disc(a - x, b - y, r),
            Variant::Empty,
        );
    }
}

/// The square of an offset no longer than a radius that fits in an `i32` is
/// at most the square of `i32::MAX`.
proof fn lemma_square_fits(d: int, r: int)
    requires
        -r <= d <= r,
        r <= i32::MAX,
    ensures
        0 <= d * d <= 0x3FFF_FFFF_0000_0001,
{
    assert(0 <= d * d <= 0x3FFF_FFFF_0000_0001) by (nonlinear_arith)
        requires
            -0x7FFF_FFFF <= d <= 0x7FFF_FFFF,
    ;
}

} // verus!
