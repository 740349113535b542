//! The brush with which a front end paints particles into a world.

use vstd::prelude::*;
use crate::gameworld::GameWorld;
use crate::grid::Grid;
use crate::paint::{
    comes_before, is_painted, lemma_paint_cell, lemma_paint_nothing, lemma_paint_same_region,
};
use crate::particle::Particle;
use crate::variant::Variant;
use crate::variant_type::{VariantProperty, entry_of, variant_type};

verus! {

/// The brush: the variant it paints and its size in cells.
pub struct Tools {
    pub variant: Variant,
    pub tool_size: usize,
}

/// How far a brush of `size` reaches beyond its centre towards the far edge:
/// half its size, and what is left of the size when it is divided by that
/// half, or one cell where the half is zero.
pub open spec fn brush_reach(size: int) -> int {
    let half = size / 2;
    if half == 0 {
        1
    } else {
        half + size % half
    }
}

/// The first column, or row, of a brush of `size` centred at `c`: half the
/// size before the centre, and 1 where the centre is no further than that
/// from the edge.
pub open spec fn brush_start(c: int, size: int) -> int {
    let half = size / 2;
    if c > half {
        c - half
    } else {
        1
    }
}

/// The column, or row, at which a brush of `size` centred at `c` ends, in a
/// grid that is `extent` wide, or high: the reach beyond the centre, and the
/// last one of the grid where the reach goes that far.
pub open spec fn brush_end(c: int, size: int, extent: int) -> int {
    if c + brush_reach(size) < extent {
        c + brush_reach(size)
    } else {
        extent - 1
    }
}

/// The cell `(x, y)` lies under a brush of `size` centred at `(cx, cy)` on
/// the grid `g`. A brush of size 0 or 1 covers nothing.
pub open spec fn in_brush(g: Grid, size: int, cx: int, cy: int, x: int, y: int) -> bool {
    &&& size / 2 > 0
    &&& brush_start(cx, size) <= x < brush_end(cx, size, g.width)
    &&& brush_start(cy, size) <= y < brush_end(cy, size, g.height)
}

/// Tools may not write over `p`.
pub open spec fn is_unerasable(p: Particle) -> bool {
    entry_of(p.variant).variant_property == VariantProperty::UnErasable
}

/// A stroke that stops at the first particle it may not erase gets as far as
/// `(x, y)`: the cell lies under the brush, and neither it nor any cell of
/// the brush before it, column after column and each from the top down,
/// holds such a particle.
pub open spec fn stroke_reaches(g: Grid, size: int, cx: int, cy: int, x: int, y: int) -> bool {
    &&& in_brush(g, size, cx, cy, x, y)
    &&& forall|a: int, b: int|
        in_brush(g, size, cx, cy, a, b) && (comes_before(a, b, x, y) || (a == x && b == y))
            ==> !is_unerasable(#[trigger] g.at(a, b))
}

impl Tools {
    /// Where a brush of this size centred at `c` starts and ends along one
    /// axis of a grid that is `extent` cells long.
    fn span(&self, c: usize, extent: usize) -> (span: (usize, usize))
        requires
            0 < extent,
        ensures
            span.0 == brush_start(c as int, self.tool_size as int),
            span.1 == brush_end(c as int, self.tool_size as int, extent as int),
            1 <= span.0,
            span.1 <= extent,
    {
        let half = self.tool_size / 2;
        let remainder = if half == 0 {
            1
        } else {
            self.tool_size % half
        };
        let start = if c > half {
            c - half
        } else {
            1
        };
        let end = if (c as u128) + (half as u128) + (remainder as u128) < (extent as u128) {
            c + half + remainder
        } else {
            extent - 1
        };
        (start, end)
    }

    /// Paints the brush's variant under the brush centred at `(x, y)`,
    /// column after column and each from the top down, and stops for good at
    /// the first particle that tools may not erase.
    pub fn paint(&mut self, world: &mut GameWorld, x: usize, y: usize)
        ensures
            is_painted(
                old(world).world@,
                final(world).world@,
                |a: int, b: int|
                    stroke_reaches(
                        old(world).world@,
                        old(self).tool_size as int,
                        x as int,
                        y as int,
                        a,
                        b,
                    ),
                old(self).variant,
            ),
            final(world).running == old(world).running,
            *final(self) == *old(self),
    {
        let ghost before = world.world@;
        let ghost size = self.tool_size as int;
        let ghost cx = x as int;
        let ghost cy = y as int;
        let half_size = self.tool_size / 2;
        let width = world.width();
        let height = world.height();
        let (x1, x2) = self.span(x, width);
        let (y1, y2) = self.span(y, height);
        proof {
            lemma_paint_nothing(
                before,
                |a: int, b: int|
                    stroke_reaches(before, size, cx, cy, a, b) && comes_before(a, b, x1 as int, 0),
                self.variant,
            );
        }
        let mut col: usize = x1;
        while col < x2
            invariant
                x1 <= col,
                col <= x2 || x1 >= x2,
                before.wf(),
                before == old(world).world@,
                width == before.width,
                height == before.height,
                width <= i32::MAX,
                height <= i32::MAX,
                half_size == size / 2,
                cx == x,
                cy == y,
                size == self.tool_size,
                x1 == brush_start(cx, size),
                x2 == brush_end(cx, size, before.width),
                y1 == brush_start(cy, size),
                y2 == brush_end(cy, size, before.height),
                1 <= x1,
                x2 <= width,
                1 <= y1,
                y2 <= height,
                world.running == old(world).running,
                *self == *old(self),
                forall|a: int, b: int|
                    in_brush(before, size, cx, cy, a, b) && comes_before(a, b, col as int, 0)
                        ==> !is_unerasable(#[trigger] before.at(a, b)),
                is_painted(
                    before,
                    world.world@,
                    |a: int, b: int|
                        stroke_reaches(before, size, cx, cy, a, b) && comes_before(
                            a,
                            b,
                            col as int,
                            0,
                        ),
                    self.variant,
                ),
            decreases x2 - col,
        {
            let mut row: usize = y1;
            proof {
                lemma_paint_same_region(
                    before,
                    world.world@,
                    |a: int, b: int|
                        stroke_reaches(before, size, cx, cy, a, b) && comes_before(
                            a,
                            b,
                            col as int,
                            0,
                        ),
                    |a: int, b: int|
                        stroke_reaches(before, size, cx, cy, a, b) && comes_before(
                            a,
                            b,
                            col as int,
                            row as int,
                        ),
                    self.variant,
                );
            }
            while row < y2
                invariant
                    x1 <= col < x2,
                    y1 <= row,
                    row <= y2 || y1 >= y2,
                    before.wf(),
                    before == old(world).world@,
                    width == before.width,
                    height == before.height,
                    width <= i32::MAX,
                    height <= i32::MAX,
                    half_size == size / 2,
                cx == x,
                cy == y,
                    size == self.tool_size,
                    x1 == brush_start(cx, size),
                    x2 == brush_end(cx, size, before.width),
                    y1 == brush_start(cy, size),
                    y2 == brush_end(cy, size, before.height),
                    1 <= x1,
                    x2 <= width,
                    1 <= y1,
                    y2 <= height,
                    world.running == old(world).running,
                    *self == *old(self),
                    forall|a: int, b: int|
                        in_brush(before, size, cx, cy, a, b) && comes_before(
                            a,
                            b,
                            col as int,
                            row as int,
                        ) ==> !is_unerasable(#[trigger] before.at(a, b)),
                    is_painted(
                        before,
                        world.world@,
                        |a: int, b: int|
                            stroke_reaches(before, size, cx, cy, a, b) && comes_before(
                                a,
                                b,
                                col as int,
                                row as int,
                            ),
                        self.variant,
                    ),
                decreases y2 - row,
            {
                let ghost now = world.world@;
                if half_size > 0 {
                    assert(in_brush(before, size, cx, cy, col as int, row as int));
                    assert(!stroke_reaches(before, size, cx, cy, col as int, row as int)
                        || !comes_before(col as int, row as int, col as int, row as int));
                    assert(now.at(col as int, row as int) == before.at(col as int, row as int));
                    // first check if the particle is unerasable
                    let found = world.world.get_particle(col as i32, row as i32);
                    if variant_type(found.variant).variant_property == VariantProperty::UnErasable {
                        proof {
                            assert(is_unerasable(before.at(col as int, row as int)));
                            lemma_paint_same_region(
                                before,
                                now,
                                |a: int, b: int|
                                    stroke_reaches(before, size, cx, cy, a, b) && comes_before(
                                        a,
                                        b,
                                        col as int,
                                        row as int,
                                    ),
                                |a: int, b: int| stroke_reaches(before, size, cx, cy, a, b),
                                self.variant,
                            );
                        }
                        return ;
                    }
                    world.world.set_particle(col as i32, row as i32, self.variant);
                    proof {
                        assert(stroke_reaches(before, size, cx, cy, col as int, row as int));
                        lemma_paint_cell(
                            before,
                            now,
                            world.world@,
                            |a: int, b: int|
                                stroke_reaches(before, size, cx, cy, a, b) && comes_before(
                                    a,
                                    b,
                                    col as int,
                                    row as int,
                                ),
                            |a: int, b: int|
                                stroke_reaches(before, size, cx, cy, a, b) && comes_before(
                                    a,
                                    b,
                                    col as int,
                                    row + 1,
                                ),
                            self.variant,
                            col as int,
                            row as int,
                        );
                    }
                } else {
                    proof {
                        lemma_paint_same_region(
                            before,
                            now,
                            |a: int, b: int|
                                stroke_reaches(before, size, cx, cy, a, b) && comes_before(
                                    a,
                                    b,
                                    col as int,
                                    row as int,
                                ),
                            |a: int, b: int|
                                stroke_reaches(before, size, cx, cy, a, b) && comes_before(
                                    a,
                                    b,
                                    col as int,
                                    row + 1,
                                ),
                            self.variant,
                        );
                    }
                }
                row += 1;
            }
            proof {
                lemma_paint_same_region(
                    before,
                    world.world@,
                    |a: int, b: int|
                        stroke_reaches(before, size, cx, cy, a, b) && comes_before(
                            a,
                            b,
                            col as int,
                            row as int,
                        ),
                    |a: int, b: int|
                        stroke_reaches(before, size, cx, cy, a, b) && comes_before(a, b, col + 1, 0),
                    self.variant,
                );
            }
            col += 1;
        }
        proof {
            lemma_paint_same_region(
                before,
                world.world@,
                |a: int, b: int|
                    stroke_reaches(before, size, cx, cy, a, b) && comes_before(a, b, col as int, 0),
                |a: int, b: int| stroke_reaches(before, size, cx, cy, a, b),
                self.variant,
            );
        }
    }

    /// Paints `variant` into every cell under the brush centred at
    /// `(x, y)`, whatever the cells hold.
    pub fn paint_specific_variant(
        &mut self,
        world: &mut GameWorld,
        x: usize,
        y: usize,
        variant: Variant,
    )
        ensures
            is_painted(
                old(world).world@,
                final(world).world@,
                |a: int, b: int|
                    in_brush(
                        old(world).world@,
                        old(self).tool_size as int,
                        x as int,
                        y as int,
                        a,
                        b,
                    ),
                variant,
            ),
            final(world).running == old(world).running,
            *final(self) == *old(self),
    {
        let ghost before = world.world@;
        let ghost size = self.tool_size as int;
        let ghost cx = x as int;
        let ghost cy = y as int;
        let half_size = self.tool_size / 2;
        let width = world.width();
        let height = world.height();
        let (x1, x2) = self.span(x, width);
        let (y1, y2) = self.span(y, height);
        proof {
            lemma_paint_nothing(
                before,
                |a: int, b: int|
                    in_brush(before, size, cx, cy, a, b) && comes_before(a, b, x1 as int, 0),
                variant,
            );
        }
        let mut col: usize = x1;
        while col < x2
            invariant
                x1 <= col,
                col <= x2 || x1 >= x2,
                before.wf(),
                before == old(world).world@,
                width == before.width,
                height == before.height,
                width <= i32::MAX,
                height <= i32::MAX,
                half_size == size / 2,
                cx == x,
                cy == y,
                size == self.tool_size,
                x1 == brush_start(cx, size),
                x2 == brush_end(cx, size, before.width),
                y1 == brush_start(cy, size),
                y2 == brush_end(cy, size, before.height),
                1 <= x1,
                x2 <= width,
                1 <= y1,
                y2 <= height,
                world.running == old(world).running,
                *self == *old(self),
                is_painted(
                    before,
                    world.world@,
                    |a: int, b: int|
                        in_brush(before, size, cx, cy, a, b) && comes_before(a, b, col as int, 0),
                    variant,
                ),
            decreases x2 - col,
        {
            let mut row: usize = y1;
            proof {
                lemma_paint_same_region(
                    before,
                    world.world@,
                    |a: int, b: int|
                        in_brush(before, size, cx, cy, a, b) && comes_before(a, b, col as int, 0),
                    |a: int, b: int|
                        in_brush(before, size, cx, cy, a, b) && comes_before(
                            a,
                            b,
                            col as int,
                            row as int,
                        ),
                    variant,
                );
            }
            while row < y2
                invariant
                    x1 <= col < x2,
                    y1 <= row,
                    row <= y2 || y1 >= y2,
                    before.wf(),
                    before == old(world).world@,
                    width == before.width,
                    height == before.height,
                    width <= i32::MAX,
                    height <= i32::MAX,
                    half_size == size / 2,
                cx == x,
                cy == y,
                    size == self.tool_size,
                    x1 == brush_start(cx, size),
                    x2 == brush_end(cx, size, before.width),
                    y1 == brush_start(cy, size),
                    y2 == brush_end(cy, size, before.height),
                    1 <= x1,
                    x2 <= width,
                    1 <= y1,
                    y2 <= height,
                    world.running == old(world).running,
                    *self == *old(self),
                    is_painted(
                        before,
                        world.world@,
                        |a: int, b: int|
                            in_brush(before, size, cx, cy, a, b) && comes_before(
                                a,
                                b,
                                col as int,
                                row as int,
                            ),
                        variant,
                    ),
                decreases y2 - row,
            {
                let ghost now = world.world@;
                if half_size > 0 {
                    world.world.set_particle(col as i32, row as i32, variant);
                    proof {
                        lemma_paint_cell(
                            before,
                            now,
                            world.world@,
                            |a: int, b: int|
                                in_brush(before, size, cx, cy, a, b) && comes_before(
                                    a,
                                    b,
                                    col as int,
                                    row as int,
                                ),
                            |a: int, b: int|
                                in_brush(before, size, cx, cy, a, b) && comes_before(
                                    a,
                                    b,
                                    col as int,
                                    row + 1,
                                ),
                            variant,
                            col as int,
                            row as int,
                        );
                    }
                } else {
                    proof {
                        lemma_paint_same_region(
                            before,
                            now,
                            |a: int, b: int|
                                in_brush(before, size, cx, cy, a, b) && comes_before(
                                    a,
                                    b,
                                    col as int,
                                    row as int,
                                ),
                            |a: int, b: int|
                                in_brush(before, size, cx, cy, a, b) && comes_before(
                                    a,
                                    b,
                                    col as int,
                                    row + 1,
                                ),
                            variant,
                        );
                    }
                }
                row += 1;
            }
            proof {
                lemma_paint_same_region(
                    before,
                    world.world@,
                    |a: int, b: int|
                        in_brush(before, size, cx, cy, a, b) && comes_before(
                            a,
                            b,
                            col as int,
                            row as int,
                        ),
                    |a: int, b: int|
                        in_brush(before, size, cx, cy, a, b) && comes_before(a, b, col + 1, 0),
                    variant,
                );
            }
            col += 1;
        }
        proof {
            lemma_paint_same_region(
                before,
                world.world@,
                |a: int, b: int|
                    in_brush(before, size, cx, cy, a, b) && comes_before(a, b, col as int, 0),
                |a: int, b: int| in_brush(before, size, cx, cy, a, b),
                variant,
            );
        }
    }
}

} // verus!
