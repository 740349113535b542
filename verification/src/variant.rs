//! The kinds of particle and the rule by which each kind moves.

use vstd::prelude::*;
use crate::api::API;
use crate::particle::{Particle, empty_cell};
use crate::rules::{is_dir, step, steps_to};
use crate::variant_type::{VARIANT_COUNT, ordinal_of};

verus! {

/// The kind of a particle.
#[derive(Clone, Copy, Debug, PartialEq, Eq, Structural)]
pub enum Variant {
    Empty,
    Wall,
    Sand,
    Water,
}

/// The lower-case name of each variant.
pub open spec fn name_of(variant: Variant) -> Seq<char> {
    match variant {
        Variant::Empty => "empty"@,
        Variant::Wall => "wall"@,
        Variant::Sand => "sand"@,
        Variant::Water => "water"@,
    }
}

impl Variant {
    /// The variant's place in the catalogue of variants.
    pub fn ordinal(&self) -> (n: usize)
        ensures
            n == ordinal_of(*self),
            n < VARIANT_COUNT,
    {
        match self {
            Variant::Empty => 0,
            Variant::Wall => 1,
            Variant::Sand => 2,
            Variant::Water => 3,
        }
    }

    /// The variant's lower-case name.
    pub fn name(&self) -> (name: &'static str)
        ensures
            name@ == name_of(*self),
    {
        match self {
            Variant::Empty => "empty",
            Variant::Wall => "wall",
            Variant::Sand => "sand",
            Variant::Water => "water",
        }
    }

    /// Runs this variant's rule once for `particle`, bound to the cell of
    /// `api`. Sand and water draw their lateral offset themselves; empty
    /// cells and walls do nothing.
    pub fn update(&self, particle: Particle, api: API)
        requires
            api.is_bound(),
        ensures
            steps_to(
                old(api.world)@,
                api.x as int,
                api.y as int,
                *self,
                particle,
                final(api.world)@,
            ),
    {
        match self {
            Variant::Empty => (),
            Variant::Wall => (),
            Variant::Sand => update_sand(particle, api),
            Variant::Water => update_water(particle, api),
        }
    }

    /// Runs this variant's rule once for `particle`, bound to the cell of
    /// `api`, with `dx` as the lateral offset drawn.
    pub fn update_with(&self, particle: Particle, api: API, dx: i32)
        requires
            api.is_bound(),
            is_dir(dx as int),
        ensures
            final(api.world)@ == step(
                old(api.world)@,
                api.x as int,
                api.y as int,
                *self,
                particle,
                dx as int,
            ),
    {
        match self {
            Variant::Empty => (),
            Variant::Wall => (),
            Variant::Sand => update_sand_with(particle, api, dx),
            Variant::Water => update_water_with(particle, api, dx),
        }
    }
}

/// The rule of sand: draws a lateral offset and falls by it.
pub fn update_sand(particle: Particle, mut api: API)
    requires
        api.is_bound(),
    ensures
        steps_to(
            old(api.world)@,
            api.x as int,
            api.y as int,
            Variant::Sand,
            particle,
            final(api.world)@,
        ),
{
    let dx = api.rand_dir();
    update_sand_with(particle, api, dx);
}

/// The rule of sand for the lateral offset `dx`: the particle moves one row
/// down, to the first open cell among the columns at offset `dx`, `dx + 1`
/// and `dx - 1`; it stays where none is open.
///
/// A cell is open where a read of it through `api` yields an empty particle.
/// An offset that leads out of the grid reads as empty too, but names no
/// cell, and is passed over.
pub fn update_sand_with(particle: Particle, mut api: API, dx: i32)
    requires
        api.is_bound(),
        is_dir(dx as int),
    ensures
        final(api.world)@ == step(
            old(api.world)@,
            api.x as int,
            api.y as int,
            Variant::Sand,
            particle,
            dx as int,
        ),
{
    let nb = api.get(dx, 1);
    let nbr = api.get(dx + 1, 1);
    let nbl = api.get(dx - 1, 1);

    if nb.variant == Variant::Empty && api.in_grid(dx, 1) {
        api.set(dx, 1, particle);
        api.set(0, 0, empty_cell());
    } else if nbr.variant == Variant::Empty && api.in_grid(dx + 1, 1) {
        api.set(dx + 1, 1, particle);
        api.set(0, 0, empty_cell());
    } else if nbl.variant == Variant::Empty && api.in_grid(dx - 1, 1) {
        api.set(dx - 1, 1, particle);
        api.set(0, 0, empty_cell());
    }
}

/// The rule of water: draws a lateral offset and flows by it.
pub fn update_water(particle: Particle, mut api: API)
    requires
        api.is_bound(),
    ensures
        steps_to(
            old(api.world)@,
            api.x as int,
            api.y as int,
            Variant::Water,
            particle,
            final(api.world)@,
        ),
{
    let dx = api.rand_dir();
    update_water_with(particle, api, dx);
}

/// The rule of water for the lateral offset `dx`: the particle moves where
/// sand would; where sand would stay, it moves to its left neighbour if that
/// is open, else to its right neighbour if that is open, else it stays.
pub fn update_water_with(particle: Particle, mut api: API, dx: i32)
    requires
        api.is_bound(),
        is_dir(dx as int),
    ensures
        final(api.world)@ == step(
            old(api.world)@,
            api.x as int,
            api.y as int,
            Variant::Water,
            particle,
            dx as int,
        ),
{
    let nb = api.get(dx, 1);
    let nbr = api.get(dx + 1, 1);
    let nbl = api.get(dx - 1, 1);
    let nl = api.get(-1, 0);
    let nr = api.get(1, 0);

    if nb.variant == Variant::Empty && api.in_grid(dx, 1) {
        api.set(dx, 1, particle);
        api.set(0, 0, empty_cell());
    } else if nbr.variant == Variant::Empty && api.in_grid(dx + 1, 1) {
        api.set(dx + 1, 1, particle);
        api.set(0, 0, empty_cell());
    } else if nbl.variant == Variant::Empty && api.in_grid(dx - 1, 1) {
        api.set(dx - 1, 1, particle);
        api.set(0, 0, empty_cell());
    } else if nl.variant == Variant::Empty && api.in_grid(-1, 0) {
        api.set(-1, 0, particle);
        api.set(0, 0, empty_cell());
    } else if nr.variant == Variant::Empty && api.in_grid(1, 0) {
        api.set(1, 0, particle);
        api.set(0, 0, empty_cell());
    }
}

/// The display colour of each variant, as `(red, green, blue)`.
pub open spec fn color_of(variant: Variant) -> (u8, u8, u8) {
    match variant {
        Variant::Empty => (0u8, 0u8, 0u8),
        Variant::Wall => (0x7Fu8, 0x7Fu8, 0x7Fu8),
        Variant::Sand => (0xFFu8, 0xFFu8, 0x00u8),
        Variant::Water => (0x00u8, 0x00u8, 0xFFu8),
    }
}

/// Maps a variant to the colour a renderer paints it with.
pub fn particle_to_color(variant: Variant) -> (res: (u8, u8, u8))
    ensures
        res == color_of(variant),
{
    match variant {
        Variant::Empty => (0, 0, 0),
        Variant::Wall => (0x7F, 0x7F, 0x7F),
        Variant::Sand => (0xFF, 0xFF, 0x00),
        Variant::Water => (0x00, 0x00, 0xFF),
    }
}

} // verus!
