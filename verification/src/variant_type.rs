//! The catalogue of variants: what is fixed about each kind of particle.

use vstd::prelude::*;
use crate::variant::{Variant, color_of};

verus! {

/// The number of variants in the catalogue.
pub const VARIANT_COUNT: usize = 4;

/// Whether a painting tool may write over a particle.
#[derive(Clone, Copy, Debug, PartialEq, Eq, Structural)]
pub enum VariantProperty {
    Erasable,
    UnErasable,
}

/// The group under which a tool palette lists a variant.
#[derive(Clone, Copy, Debug, PartialEq, Eq, Structural)]
pub enum VariantGroup {
    Void,
    Wall,
    Powder,
    Fluid,
}

/// What is fixed about a variant: its weight, the two ends of the range of
/// colours it is drawn in, whether tools may erase it, and its group.
#[derive(Clone, Copy, Debug, PartialEq, Eq)]
pub struct VariantType {
    pub weight: u8,
    pub color: (u8, u8, u8),
    pub color2: (u8, u8, u8),
    pub variant_property: VariantProperty,
    pub group: VariantGroup,
    pub source_variant: Variant,
}

/// The place of a variant in the catalogue.
pub open spec fn ordinal_of(variant: Variant) -> int {
    match variant {
        Variant::Empty => 0,
        Variant::Wall => 1,
        Variant::Sand => 2,
        Variant::Water => 3,
    }
}

/// The catalogue's entry for `variant`. Walls are the one variant that tools
/// may not erase; every variant is drawn in a single colour.
pub open spec fn entry_of(variant: Variant) -> VariantType {
    VariantType {
        weight: 0,
        color: color_of(variant),
        color2: color_of(variant),
        variant_property: match variant {
            Variant::Wall => VariantProperty::UnErasable,
            _ => VariantProperty::Erasable,
        },
        group: match variant {
            Variant::Empty => VariantGroup::Void,
            Variant::Wall => VariantGroup::Wall,
            Variant::Sand => VariantGroup::Powder,
            Variant::Water => VariantGroup::Fluid,
        },
        source_variant: variant,
    }
}

/// Looks `variant` up in the catalogue.
pub fn variant_type(variant: Variant) -> (entry: VariantType)
    ensures
        entry == entry_of(variant),
        entry.source_variant == variant,
        entry.color == color_of(variant),
{
    match variant {
        Variant::Empty => VariantType {
            weight: 0,
            color: (0, 0, 0),
            color2: (0, 0, 0),
            variant_property: VariantProperty::Erasable,
            group: VariantGroup::Void,
            source_variant: Variant::Empty,
        },
        Variant::Wall => VariantType {
            weight: 0,
            color: (0x7F, 0x7F, 0x7F),
            color2: (0x7F, 0x7F, 0x7F),
            variant_property: VariantProperty::UnErasable,
            group: VariantGroup::Wall,
            source_variant: Variant::Wall,
        },
        Variant::Sand => VariantType {
            weight: 0,
            color: (0xFF, 0xFF, 0x00),
            color2: (0xFF, 0xFF, 0x00),
            variant_property: VariantProperty::Erasable,
            group: VariantGroup::Powder,
            source_variant: Variant::Sand,
        },
        Variant::Water => VariantType {
            weight: 0,
            color: (0x00, 0x00, 0xFF),
            color2: (0x00, 0x00, 0xFF),
            variant_property: VariantProperty::Erasable,
            group: VariantGroup::Fluid,
            source_variant: Variant::Water,
        },
    }
}

/// The whole catalogue, each variant's entry at the variant's ordinal.
pub fn variants() -> (table: [VariantType; 4])
    ensures
        table@.len() == VARIANT_COUNT,
        forall|v: Variant| #[trigger] table@[ordinal_of(v)] == entry_of(v),
{
    let table = [
        variant_type(Variant::Empty),
        variant_type(Variant::Wall),
        variant_type(Variant::Sand),
        variant_type(Variant::Water),
    ];
    assert forall|v: Variant| #[trigger] table@[ordinal_of(v)] == entry_of(v) by {
        match v {
            Variant::Empty => {},
            Variant::Wall => {},
            Variant::Sand => {},
            Variant::Water => {},
        }
    }
    table
}

} // verus!
