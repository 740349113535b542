//! The particle: what one cell of the grid holds.

use vstd::prelude::*;
use crate::api::API;
use crate::random::draw_in_range;
use crate::rules::steps_to;
use crate::variant::{Variant, color_of, name_of};

verus! {

/// The state held by one cell of the grid.
///
/// `ra` and `rb` are scratch bytes that belong to the variant's rule. A
/// particle has no identity of its own: to move one is to copy it into
/// another cell and to put [`empty_cell`] into the cell it came from.
#[derive(Clone, Copy, Debug, PartialEq, Eq, Structural)]
pub struct Particle {
    pub variant: Variant,
    pub ra: u8,
    pub rb: u8,
}

/// The canonical empty particle: no variant and both scratch bytes zero.
pub open spec fn canonical_empty() -> Particle {
    Particle { variant: Variant::Empty, ra: 0, rb: 0 }
}

/// Returns the canonical empty particle.
#[verifier::when_used_as_spec(canonical_empty)]
pub fn empty_cell() -> (p: Particle)
    ensures
        p == canonical_empty(),
{
    Particle { variant: Variant::Empty, ra: 0, rb: 0 }
}

/// The scratch byte `ra` of a fresh particle whose shade is the `step`-th of
/// the two: 100 for the first, 150 for the second.
pub open spec fn shade(step: int) -> int {
    100 + step * 50
}

/// `p` could have come from [`Particle::new`] asked for `variant`: it has
/// that variant, one of the two initial shades in `ra`, and zero in `rb`.
pub open spec fn is_fresh(p: Particle, variant: Variant) -> bool {
    &&& p.variant == variant
    &&& p.rb == 0
    &&& (p.ra == shade(0) || p.ra == shade(1))
}

impl Particle {
    /// Makes a particle of `variant` with a shade drawn at random. The
    /// argument `ra` is not used: the shade takes its place.
    pub fn new(variant: Variant, ra: u8, rb: u8) -> (p: Particle)
        ensures
            p.variant == variant,
            p.rb == rb,
            p.ra == shade(0) || p.ra == shade(1),
    {
        let step = draw_in_range(0, 2);
        Particle::with_shade(variant, step as u8, rb)
    }

    /// Makes a particle of `variant` whose shade is the `step`-th of the two.
    pub fn with_shade(variant: Variant, step: u8, rb: u8) -> (p: Particle)
        requires
            step < 2,
        ensures
            p == (Particle { variant, ra: shade(step as int) as u8, rb }),
            p.ra == shade(step as int),
    {
        Particle { variant, ra: 100 + step * 50, rb }
    }

    /// The particle's variant.
    pub fn get_variant(&self) -> (v: Variant)
        ensures
            v == self.variant,
    {
        self.variant
    }

    /// The lower-case name of the particle's variant.
    pub fn get_ident(&self) -> (ident: &'static str)
        ensures
            ident@ == name_of(self.variant),
    {
        self.variant.name()
    }

    /// Runs the rule of this particle's variant once for it, bound to the
    /// cell of `api`.
    pub fn update(&self, api: API)
        requires
            api.is_bound(),
        ensures
            steps_to(
                old(api.world)@,
                api.x as int,
                api.y as int,
                self.variant,
                *self,
                final(api.world)@,
            ),
    {
        self.variant.update(*self, api);
    }
}

/// Maps a variant to the colour a renderer paints it with.
pub fn particle_to_color(variant: Variant) -> (res: (u8, u8, u8))
    ensures
        res == color_of(variant),
{
    crate::variant::particle_to_color(variant)
}

} // verus!
