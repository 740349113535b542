//! A world as a front end holds it: framed by walls, and running or paused.

use vstd::prelude::*;
use crate::grid::Grid;
use crate::paint::{
    comes_before, is_painted, lemma_paint_cell, lemma_paint_nothing, lemma_paint_same_region,
};
use crate::particle::{Particle, particle_to_color};
use crate::rules::{is_draws, tick_result};
use crate::variant::{Variant, color_of};
use crate::world::World;

verus! {

/// The thickness of the frame of walls, in cells.
pub const WALL_THICKNESS: i32 = 2;

/// The cell `(x, y)` belongs to the frame of a grid of `width` by `height`
/// cells: it is no further than [`WALL_THICKNESS`] from an edge.
pub open spec fn in_frame(width: int, height: int, x: int, y: int) -> bool {
    x < WALL_THICKNESS || x >= width - WALL_THICKNESS || y < WALL_THICKNESS || y >= height
        - WALL_THICKNESS
}

/// The four bytes that a particle is drawn with: the red, green and blue of
/// its variant's colour, and an alpha of 255.
pub open spec fn pixel_of(p: Particle) -> Seq<u8> {
    let c = color_of(p.variant);
    seq![c.0, c.1, c.2, 255u8]
}

/// `after` is the buffer `before` with the picture of `g` at its start: four
/// bytes for each cell, in the order in which the cells are stored. What lies
/// behind the picture is as it was.
pub open spec fn is_picture(g: Grid, before: Seq<u8>, after: Seq<u8>) -> bool {
    &&& after.len() == before.len()
    &&& forall|i: int|
        0 <= i < after.len() ==> #[trigger] after[i] == if i < 4 * g.cells.len() {
            pixel_of(g.cells[i / 4])[i % 4]
        } else {
            before[i]
        }
}

/// A world together with the switch that says whether it runs.
pub struct GameWorld {
    pub world: World,
    pub running: bool,
}

impl GameWorld {
    /// Makes a running world of `width` by `height` cells whose frame holds
    /// fresh walls and whose other cells are empty.
    ///
    /// Both dimensions must be positive, and the number of cells must fit in
    /// an `i32`.
    pub fn new(width: i32, height: i32) -> (game: GameWorld)
        requires
            0 < width,
            0 < height,
            width * height <= i32::MAX,
        ensures
            is_painted(
                Grid::blank(width as int, height as int),
                game.world@,
                |x: int, y: int| in_frame(width as int, height as int, x, y),
                Variant::Wall,
            ),
            game.running,
    {
        let mut world = World::new(width, height);
        let ghost blank = world@;
        let ghost w = width as int;
        let ghost h = height as int;
        let mut x: i32 = 0;
        while x < width
            invariant
                0 <= x <= width,
                blank == Grid::blank(w, h),
                blank.wf(),
                w == width,
                h == height,
                is_painted(
                    blank,
                    world@,
                    |a: int, b: int| in_frame(w, h, a, b) && comes_before(a, b, x as int, 0),
                    Variant::Wall,
                ),
            decreases width - x,
        {
            let mut y: i32 = 0;
            while y < height
                invariant
                    0 <= x < width,
                    0 <= y <= height,
                    blank == Grid::blank(w, h),
                    blank.wf(),
                    w == width,
                    h == height,
                    is_painted(
                        blank,
                        world@,
                        |a: int, b: int|
                            in_frame(w, h, a, b) && comes_before(a, b, x as int, y as int),
                        Variant::Wall,
                    ),
                decreases height - y,
            {
                let ghost now = world@;
                if x < WALL_THICKNESS || x >= width - WALL_THICKNESS || y < WALL_THICKNESS || y
                    >= height - WALL_THICKNESS {
                    world.set_particle(x, y, Variant::Wall);
                    proof {
                        lemma_paint_cell(
                            blank,
                            now,
                            world@,
                            |a: int, b: int|
                                in_frame(w, h, a, b) && comes_before(a, b, x as int, y as int),
                            |a: int, b: int|
                                in_frame(w, h, a, b) && comes_before(a, b, x as int, y + 1),
                            Variant::Wall,
                            x as int,
                            y as int,
                        );
                    }
                } else {
                    proof {
                        lemma_paint_same_region(
                            blank,
                            now,
                            |a: int, b: int|
                                in_frame(w, h, a, b) && comes_before(a, b, x as int, y as int),
                            |a: int, b: int|
                                in_frame(w, h, a, b) && comes_before(a, b, x as int, y + 1),
                            Variant::Wall,
                        );
                    }
                }
                y += 1;
            }
            proof {
                lemma_paint_same_region(
                    blank,
                    world@,
                    |a: int, b: int| in_frame(w, h, a, b) && comes_before(a, b, x as int, y as int),
                    |a: int, b: int| in_frame(w, h, a, b) && comes_before(a, b, x + 1, 0),
                    Variant::Wall,
                );
            }
            x += 1;
        }
        proof {
            lemma_paint_same_region(
                blank,
                world@,
                |a: int, b: int| in_frame(w, h, a, b) && comes_before(a, b, x as int, 0),
                |a: int, b: int| in_frame(w, h, a, b),
                Variant::Wall,
            );
        }
        GameWorld { world, running: true }
    }

    /// The number of columns.
    pub fn width(&self) -> (w: usize)
        ensures
            w == self.world@.width,
            0 < w <= i32::MAX,
            self.world@.wf(),
    {
        self.world.width() as usize
    }

    /// Empties every cell that holds no wall, and keeps the walls. The cells
    /// that are emptied get fresh empty particles.
    pub fn reset(&mut self)
        ensures
            is_painted(
                old(self).world@,
                final(self).world@,
                |x: int, y: int| old(self).world@.at(x, y).variant != Variant::Wall,
                Variant::Empty,
            ),
            final(self).running == old(self).running,
    {
        let ghost before = self.world@;
        let width = self.world.width();
        let height = self.world.height();
        proof {
            lemma_paint_nothing(
                before,
                |a: int, b: int|
                    before.at(a, b).variant != Variant::Wall && comes_before(a, b, 0, 0),
                Variant::Empty,
            );
        }
        let mut x: i32 = 0;
        while x < width
            invariant
                0 <= x <= width,
                before.wf(),
                before == old(self).world@,
                width == before.width,
                height == before.height,
                self.running == old(self).running,
                is_painted(
                    before,
                    self.world@,
                    |a: int, b: int|
                        before.at(a, b).variant != Variant::Wall && comes_before(a, b, x as int, 0),
                    Variant::Empty,
                ),
            decreases width - x,
        {
            let mut y: i32 = 0;
            while y < height
                invariant
                    0 <= x < width,
                    0 <= y <= height,
                    before.wf(),
                    before == old(self).world@,
                    width == before.width,
                    height == before.height,
                    self.running == old(self).running,
                    is_painted(
                        before,
                        self.world@,
                        |a: int, b: int|
                            before.at(a, b).variant != Variant::Wall && comes_before(
                                a,
                                b,
                                x as int,
                                y as int,
                            ),
                        Variant::Empty,
                    ),
                decreases height - y,
            {
                let ghost now = self.world@;
                assert(now.at(x as int, y as int) == before.at(x as int, y as int));
                if self.world.get_particle(x, y).variant != Variant::Wall {
                    self.world.set_particle(x, y, Variant::Empty);
                    proof {
                        lemma_paint_cell(
                            before,
                            now,
                            self.world@,
                            |a: int, b: int|
                                before.at(a, b).variant != Variant::Wall && comes_before(
                                    a,
                                    b,
                                    x as int,
                                    y as int,
                                ),
                            |a: int, b: int|
                                before.at(a, b).variant != Variant::Wall && comes_before(
                                    a,
                                    b,
                                    x as int,
                                    y + 1,
                                ),
                            Variant::Empty,
                            x as int,
                            y as int,
                        );
                    }
                } else {
                    proof {
                        lemma_paint_same_region(
                            before,
                            now,
                            |a: int, b: int|
                                before.at(a, b).variant != Variant::Wall && comes_before(
                                    a,
                                    b,
                                    x as int,
                                    y as int,
                                ),
                            |a: int, b: int|
                                before.at(a, b).variant != Variant::Wall && comes_before(
                                    a,
                                    b,
                                    x as int,
                                    y + 1,
                                ),
                            Variant::Empty,
                        );
                    }
                }
                y += 1;
            }
            proof {
                lemma_paint_same_region(
                    before,
                    self.world@,
                    |a: int, b: int|
                        before.at(a, b).variant != Variant::Wall && comes_before(
                            a,
                            b,
                            x as int,
                            y as int,
                        ),
                    |a: int, b: int|
                        before.at(a, b).variant != Variant::Wall && comes_before(a, b, x + 1, 0),
                    Variant::Empty,
                );
            }
            x += 1;
        }
        proof {
            lemma_paint_same_region(
                before,
                self.world@,
                |a: int, b: int|
                    before.at(a, b).variant != Variant::Wall && comes_before(a, b, x as int, 0),
                |a: int, b: int| before.at(a, b).variant != Variant::Wall,
                Variant::Empty,
            );
        }
    }

    /// The number of rows.
    pub fn height(&self) -> (h: usize)
        ensures
            h == self.world@.height,
            0 < h <= i32::MAX,
            self.world@.wf(),
    {
        self.world.height() as usize
    }

    /// What a front end does with the world once per frame: one tick where
    /// the world runs, nothing where it is paused.
    pub fn update(&mut self)
        ensures
            old(self).running ==> exists|draws: Seq<i32>|
                is_draws(old(self).world@, draws) && final(self).world@ == tick_result(
                    old(self).world@,
                    draws,
                ),
            !old(self).running ==> final(self).world@ == old(self).world@,
            final(self).running == old(self).running,
    {
        if self.running {
            self.world.tick();
        }
    }

    /// Draws the world into `data`, which must have room for four bytes per
    /// cell: each cell's colour and an alpha of 255, cell after cell in the
    /// order in which the cells are stored.
    pub fn render(&self, data: &mut Vec<u8>)
        requires
            old(data)@.len() >= 4 * self.world@.cells.len(),
        ensures
            is_picture(self.world@, old(data)@, final(data)@),
    {
        let cells = self.world.particles();
        let n = cells.len();
        let room = data.len();
        let mut idx: usize = 0;
        while idx < n
            invariant
                0 <= idx <= n,
                n == cells@.len(),
                cells@ == self.world@.cells,
                data@.len() == old(data)@.len(),
                data@.len() == room,
                room >= 4 * n,
                forall|i: int|
                    0 <= i < data@.len() ==> #[trigger] data@[i] == if i < 4 * idx {
                        pixel_of(cells@[i / 4])[i % 4]
                    } else {
                        old(data)@[i]
                    },
            decreases n - idx,
        {
            let color = particle_to_color(cells[idx].get_variant());
            let at = idx * 4;
            data[at] = color.0;
            data[at + 1] = color.1;
            data[at + 2] = color.2;
            data[at + 3] = 255;
            idx += 1;
        }
    }

    /// Advances the world by one tick, running or not.
    pub fn tick(&mut self)
        ensures
            exists|draws: Seq<i32>|
                is_draws(old(self).world@, draws) && final(self).world@ == tick_result(
                    old(self).world@,
                    draws,
                ),
            final(self).running == old(self).running,
    {
        self.world.tick();
    }
}

} // verus!
