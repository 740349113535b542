//! The world: the grid's storage and the tick that drives it.

use vstd::prelude::*;
use crate::api::API;
use crate::grid::Grid;
use crate::particle::{Particle, empty_cell, is_fresh};
use crate::rules::{is_draws, lemma_scan_frame, lemma_scan_next, scan, step, tick_result};
use crate::variant::Variant;

verus! {

/// A grid of particles of fixed dimensions, with its ambient scalars and a
/// count of the ticks it has been through.
pub struct World {
    particles: Vec<Particle>,
    ambient_heat: u8,
    ambient_pressure: u8,
    ambient_wind: u8,
    generation: u64,
    width: i32,
    height: i32,
}

impl View for World {
    type V = Grid;

    closed spec fn view(&self) -> Grid {
        Grid {
            width: self.width as int,
            height: self.height as int,
            cells: self.particles@,
            heat: self.ambient_heat,
            pressure: self.ambient_pressure,
            wind: self.ambient_wind,
            generation: self.generation,
        }
    }
}

impl Default for World {
    /// A world of 100 by 100 empty cells.
    fn default() -> (world: Self)
        ensures
            world@ == Grid::blank(100, 100),
            world@.wf(),
    {
        Self::new(100, 100)
    }
}

impl World {
    #[verifier::type_invariant]
    spec fn inv(self) -> bool {
        &&& self@.wf()
        &&& self.width * self.height <= i32::MAX
    }

    /// Makes a world of `width` by `height` cells, all of them empty.
    ///
    /// Both dimensions must be positive, and the number of cells must fit in
    /// an `i32`.
    pub fn new(width: i32, height: i32) -> (world: World)
        requires
            0 < width,
            0 < height,
            width * height <= i32::MAX,
        ensures
            world@ == Grid::blank(width as int, height as int),
            world@.wf(),
    {
        let mut particles: Vec<Particle> = Vec::new();
        let count: i32 = width * height;
        let mut i: i32 = 0;
        while i < count
            invariant
                0 <= i <= count,
                particles@.len() == i,
                forall|k: int| 0 <= k < i ==> particles@[k] == empty_cell(),
            decreases count - i,
        {
            particles.push(empty_cell());
            i += 1;
        }
        let world = World {
            particles,
            ambient_heat: 0,
            ambient_pressure: 0,
            ambient_wind: 0,
            generation: 0,
            width,
            height,
        };
        assert(world@.cells =~= Grid::blank(width as int, height as int).cells);
        world
    }

    /// Makes a world of `width` by `height` empty cells, or none where a
    /// dimension is not positive or the number of cells does not fit in an
    /// `i32`.
    pub fn try_new(width: i32, height: i32) -> (made: Option<World>)
        ensures
            made is Some <==> 0 < width && 0 < height && width * height <= i32::MAX,
            made matches Some(world) ==> world@ == Grid::blank(width as int, height as int)
                && world@.wf(),
    {
        if width <= 0 || height <= 0 {
            return None;
        }
        assert(0 < width * height <= 0x3FFF_FFFF_0000_0001) by (nonlinear_arith)
            requires
                0 < width <= 0x7FFF_FFFF,
                0 < height <= 0x7FFF_FFFF,
        ;
        if width as i64 * height as i64 > i32::MAX as i64 {
            return None;
        }
        Some(World::new(width, height))
    }

    /// The number of columns.
    pub fn width(&self) -> (w: i32)
        ensures
            w == self@.width,
            self@.wf(),
    {
        proof {
            use_type_invariant(self);
        }
        self.width
    }

    /// The number of rows.
    pub fn height(&self) -> (h: i32)
        ensures
            h == self@.height,
            self@.wf(),
    {
        proof {
            use_type_invariant(self);
        }
        self.height
    }

    /// The number of ticks that the world has been through.
    pub fn generation(&self) -> (n: u64)
        ensures
            n == self@.generation,
    {
        self.generation
    }

    /// The ambient heat.
    pub fn ambient_heat(&self) -> (heat: u8)
        ensures
            heat == self@.heat,
    {
        self.ambient_heat
    }

    /// The ambient pressure.
    pub fn ambient_pressure(&self) -> (pressure: u8)
        ensures
            pressure == self@.pressure,
    {
        self.ambient_pressure
    }

    /// The ambient wind.
    pub fn ambient_wind(&self) -> (wind: u8)
        ensures
            wind == self@.wind,
    {
        self.ambient_wind
    }

    /// The cells in storage order, row after row: with the dimensions, all
    /// that a snapshot of the grid needs.
    pub fn particles(&self) -> (cells: &Vec<Particle>)
        ensures
            cells@ == self@.cells,
            self@.wf(),
    {
        proof {
            use_type_invariant(self);
        }
        &self.particles
    }

    /// The number of cells that are not empty.
    pub fn particle_count(&self) -> (n: usize)
        ensures
            n == self@.occupied(),
    {
        let len = self.particles.len();
        let mut n: usize = 0;
        let mut i: usize = 0;
        while i < len
            invariant
                0 <= i <= len,
                len == self.particles@.len(),
                n == self@.occupied_upto(i as int),
                n <= i,
            decreases len - i,
        {
            if self.particles[i].variant != Variant::Empty {
                n += 1;
            }
            i += 1;
        }
        n
    }

    /// Puts the canonical empty particle into every cell.
    pub fn reset(&mut self)
        ensures
            final(self)@ == old(self)@.cleared(),
            final(self)@.wf(),
    {
        proof {
            use_type_invariant(&*self);
        }
        let n = self.particles.len();
        let mut i: usize = 0;
        while i < n
            invariant
                0 <= i <= n,
                n == self.particles@.len(),
                self@.wf(),
                self.width * self.height <= i32::MAX,
                self@.cells.len() == old(self)@.cells.len(),
                self@ == (Grid { cells: self@.cells, ..old(self)@ }),
                forall|k: int| 0 <= k < i ==> self@.cells[k] == empty_cell(),
            decreases n - i,
        {
            self.particles[i] = empty_cell();
            i += 1;
        }
        assert(self@.cells =~= old(self)@.cleared().cells);
    }

    /// Advances the world by one tick: visits every cell once, column after
    /// column from the left and each column from its bottom row up, and runs
    /// for the particle found there the rule of its variant. The rules write
    /// in place, so a visit sees what the visits before it have done; a
    /// particle that has fallen within its column, or to the left, is not met
    /// again in the same tick.
    ///
    /// Each rule draws its own lateral offset: the result is that of
    /// [`World::tick_with`] for some draws.
    pub fn tick(&mut self)
        ensures
            exists|draws: Seq<i32>|
                is_draws(old(self)@, draws) && final(self)@ == tick_result(old(self)@, draws),
            final(self)@.wf(),
    {
        proof {
            use_type_invariant(&*self);
        }
        let ghost g0 = self@;
        let ghost mut draws: Seq<i32> = Seq::new(g0.cells.len(), |i: int| 0i32);
        let width = self.width;
        let height = self.height;
        let mut x: i32 = 0;
        while x < width
            invariant
                0 <= x <= width,
                width == g0.width,
                height == g0.height,
                g0.wf(),
                is_draws(g0, draws),
                self@ == scan(g0, draws, x as int, 0),
            decreases width - x,
        {
            let mut y: i32 = height;
            while y > 0
                invariant
                    0 <= x < width,
                    0 <= y <= height,
                    width == g0.width,
                    height == g0.height,
                    g0.wf(),
                    is_draws(g0, draws),
                    self@ == scan(g0, draws, x as int, height - y),
                decreases y,
            {
                proof {
                    lemma_scan_frame(g0, draws, x as int, height - y);
                }
                y -= 1;
                let ghost before = self@;
                let particle = self.get_particle(x, y);
                particle.variant.update(particle, API { world: self, x, y });
                proof {
                    let dx: i32 = if self@ == step(
                        before,
                        x as int,
                        y as int,
                        particle.variant,
                        particle,
                        -1,
                    ) {
                        -1i32
                    } else {
                        0i32
                    };
                    lemma_scan_next(g0, draws, x as int, height - 1 - y, dx);
                    g0.lemma_index_bounds(x as int, y as int);
                    draws = draws.update(g0.index(x as int, y as int), dx);
                }
            }
            x += 1;
        }
        proof {
            lemma_scan_frame(g0, draws, width as int, 0);
        }
        self.generation = if self.generation == u64::MAX {
            0
        } else {
            self.generation + 1
        };
    }

    /// Advances the world by one tick in which the rule run for the cell
    /// `(x, y)` draws the lateral offset `dirs[x + y * width]`.
    ///
    /// `dirs` must hold one offset per cell, each `-1` or `0`.
    pub fn tick_with(&mut self, dirs: &Vec<i32>)
        requires
            is_draws(old(self)@, dirs@),
        ensures
            final(self)@ == tick_result(old(self)@, dirs@),
            final(self)@.wf(),
    {
        proof {
            use_type_invariant(&*self);
        }
        let ghost g0 = self@;
        let width = self.width;
        let height = self.height;
        let mut x: i32 = 0;
        while x < width
            invariant
                0 <= x <= width,
                width == g0.width,
                height == g0.height,
                g0.wf(),
                is_draws(g0, dirs@),
                self@ == scan(g0, dirs@, x as int, 0),
            decreases width - x,
        {
            let mut y: i32 = height;
            while y > 0
                invariant
                    0 <= x < width,
                    0 <= y <= height,
                    width == g0.width,
                    height == g0.height,
                    g0.wf(),
                    is_draws(g0, dirs@),
                    self@ == scan(g0, dirs@, x as int, height - y),
                decreases y,
            {
                proof {
                    lemma_scan_frame(g0, dirs@, x as int, height - y);
                }
                y -= 1;
                let particle = self.get_particle(x, y);
                let idx = self.get_idx(x, y);
                let dx = dirs[idx];
                particle.variant.update_with(particle, API { world: self, x, y }, dx);
            }
            x += 1;
        }
        proof {
            lemma_scan_frame(g0, dirs@, width as int, 0);
        }
        self.generation = if self.generation == u64::MAX {
            0
        } else {
            self.generation + 1
        };
    }

    /// The position in storage of the cell `(x, y)`, which must be a cell of
    /// the grid.
    pub fn get_idx(&self, x: i32, y: i32) -> (idx: usize)
        requires
            self@.contains(x as int, y as int),
        ensures
            idx == self@.index(x as int, y as int),
            idx < self@.cells.len(),
            self@.wf(),
    {
        proof {
            use_type_invariant(self);
            self@.lemma_index_bounds(x as int, y as int);
        }
        (x + y * self.width) as usize
    }

    /// The particle in the cell `(x, y)`, which must be a cell of the grid.
    pub fn get_particle(&self, x: i32, y: i32) -> (p: Particle)
        requires
            self@.contains(x as int, y as int),
        ensures
            p == self@.at(x as int, y as int),
            self@.wf(),
    {
        let idx = self.get_idx(x, y);
        self.particles[idx]
    }

    /// Puts `particle` into the cell `(x, y)`, which must be a cell of the
    /// grid.
    pub fn put_particle(&mut self, x: i32, y: i32, particle: Particle)
        requires
            old(self)@.contains(x as int, y as int),
        ensures
            final(self)@ == old(self)@.put(x as int, y as int, particle),
            final(self)@.wf(),
    {
        proof {
            use_type_invariant(&*self);
        }
        let idx = self.get_idx(x, y);
        self.particles[idx] = particle;
    }

    /// Puts a fresh particle of `variant` into the cell `(x, y)`, which must
    /// be a cell of the grid. The particle's shade is drawn at random.
    pub fn set_particle(&mut self, x: i32, y: i32, variant: Variant)
        requires
            old(self)@.contains(x as int, y as int),
        ensures
            is_fresh(final(self)@.at(x as int, y as int), variant),
            final(self)@ == old(self)@.put(x as int, y as int, final(self)@.at(x as int, y as int)),
            final(self)@.wf(),
    {
        proof {
            use_type_invariant(&*self);
        }
        let particle = Particle::new(variant, 0, 0);
        self.put_particle(x, y, particle);
        proof {
            old(self)@.lemma_put_wf(x as int, y as int, particle);
            old(self)@.lemma_put_at(x as int, y as int, particle, x as int, y as int);
        }
    }
}

} // verus!
