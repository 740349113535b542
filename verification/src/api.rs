//! The handle through which an update rule sees and changes the grid.

use vstd::prelude::*;
use crate::particle::{Particle, empty_cell};
use crate::random::draw_in_range;
use crate::rules::{is_dir, is_draws, tick_result};
use crate::world::World;

verus! {

/// A handle on the world that is bound to one cell, made for one run of an
/// update rule and dropped after it. A rule reads and writes its neighbours
/// through it, by their offsets from the bound cell.
pub struct API<'a> {
    pub world: &'a mut World,
    pub x: i32,
    pub y: i32,
}

impl<'a> API<'a> {
    /// The handle is bound to a cell of the grid.
    pub open spec fn is_bound(self) -> bool {
        self.world@.contains(self.x as int, self.y as int)
    }

    /// Writes `particle` into the cell at offset `(dx, dy)` from the bound
    /// cell. The write is not guarded: the target must be a cell of the grid.
    pub fn set(&mut self, dx: i32, dy: i32, particle: Particle)
        requires
            old(self).world@.contains(old(self).x + dx, old(self).y + dy),
        ensures
            final(self).world@ == old(self).world@.put(
                old(self).x + dx,
                old(self).y + dy,
                particle,
            ),
            final(self).x == old(self).x,
            final(self).y == old(self).y,
            *final(final(self).world) == *final(old(self).world),
    {
        let width: i32 = self.world.width();
        let height: i32 = self.world.height();
        assert(0 <= self.x + dx < width && 0 <= self.y + dy < height);
        let nx: i32 = self.x + dx;
        let ny: i32 = self.y + dy;
        self.world.put_particle(nx, ny, particle);
    }

    /// Advances the world by one tick.
    pub fn update_world(&mut self)
        ensures
            exists|draws: Seq<i32>|
                is_draws(old(self).world@, draws) && final(self).world@ == tick_result(
                    old(self).world@,
                    draws,
                ),
            final(self).x == old(self).x,
            final(self).y == old(self).y,
            *final(final(self).world) == *final(old(self).world),
    {
        self.world.tick();
    }

    /// Puts the canonical empty particle into every cell of the world.
    pub fn reset(&mut self)
        ensures
            final(self).world@ == old(self).world@.cleared(),
            final(self).x == old(self).x,
            final(self).y == old(self).y,
            *final(final(self).world) == *final(old(self).world),
    {
        self.world.reset();
    }

    /// Draws the lateral offset for one run of a rule: `-1` or `0`, anew at
    /// each call.
    pub fn rand_dir(&mut self) -> (dx: i32)
        ensures
            is_dir(dx as int),
            *final(self) == *old(self),
    {
        draw_in_range(-1, 1)
    }

    /// Reads the neighbour at offset `(dx, dy)` from the bound cell.
    ///
    /// Inside the window, which is the grid without its last column and its
    /// last row, this is the cell's particle. Everywhere else, beyond the
    /// grid too, it is the canonical empty particle.
    pub fn get(&mut self, dx: i32, dy: i32) -> (p: Particle)
        ensures
            p == old(self).world@.read(old(self).x + dx, old(self).y + dy),
            *final(self) == *old(self),
    {
        let nx: i64 = self.x as i64 + dx as i64;
        let ny: i64 = self.y as i64 + dy as i64;
        let width: i64 = self.world.width() as i64;
        let height: i64 = self.world.height() as i64;
        if nx < 0 || nx >= width - 1 || ny < 0 || ny >= height - 1 {
            return empty_cell();
        }
        self.world.get_particle(nx as i32, ny as i32)
    }

    /// Whether the offset `(dx, dy)` from the bound cell names a cell of the
    /// grid.
    pub fn in_grid(&mut self, dx: i32, dy: i32) -> (b: bool)
        ensures
            b == old(self).world@.contains(old(self).x + dx, old(self).y + dy),
            *final(self) == *old(self),
    {
        let nx: i64 = self.x as i64 + dx as i64;
        let ny: i64 = self.y as i64 + dy as i64;
        let width: i64 = self.world.width() as i64;
        let height: i64 = self.world.height() as i64;
        0 <= nx && nx < width && 0 <= ny && ny < height
    }
}

} // verus!
