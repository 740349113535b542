use silica_engine::particle::{empty_cell, particle_to_color, Particle};
use silica_engine::variant::Variant;
use silica_engine::variant_type::{
    variant_type, variants, VariantGroup, VariantProperty, VARIANT_COUNT,
};

const ALL: [Variant; 4] = [Variant::Empty, Variant::Wall, Variant::Sand, Variant::Water];

#[test]
fn a_shade_is_100_plus_50_times_the_step() {
    assert_eq!(
        Particle::with_shade(Variant::Sand, 0, 7),
        Particle { variant: Variant::Sand, ra: 100, rb: 7 }
    );
    assert_eq!(
        Particle::with_shade(Variant::Water, 1, 0),
        Particle { variant: Variant::Water, ra: 150, rb: 0 }
    );
}

#[test]
fn a_new_particle_has_one_of_the_two_shades() {
    let mut low = 0;
    let mut high = 0;
    for _ in 0..400 {
        let p = Particle::new(Variant::Sand, 3, 9);
        assert_eq!(p.variant, Variant::Sand);
        assert_eq!(p.rb, 9);
        assert!(p.ra == 100 || p.ra == 150);
        if p.ra == 100 {
            low += 1;
        } else {
            high += 1;
        }
    }
    assert!(low > 0);
    assert!(high > 0);
}

#[test]
fn a_new_particle_does_not_take_the_shade_it_is_given() {
    for _ in 0..20 {
        assert!(Particle::new(Variant::Wall, 3, 0).ra != 3);
    }
}

#[test]
fn a_particle_knows_its_variant() {
    for v in ALL {
        let p = Particle { variant: v, ra: 1, rb: 2 };
        assert_eq!(p.get_variant(), v);
    }
    assert_eq!(empty_cell().get_variant(), Variant::Empty);
}

#[test]
fn variants_have_lower_case_names() {
    assert_eq!(Variant::Empty.name(), "empty");
    assert_eq!(Variant::Wall.name(), "wall");
    assert_eq!(Variant::Sand.name(), "sand");
    assert_eq!(Variant::Water.name(), "water");
    assert_eq!(Particle { variant: Variant::Water, ra: 0, rb: 0 }.get_ident(), "water");
    assert_eq!(Particle { variant: Variant::Wall, ra: 0, rb: 0 }.get_ident(), "wall");
}

#[test]
fn variants_have_their_colours() {
    assert_eq!(particle_to_color(Variant::Empty), (0, 0, 0));
    assert_eq!(particle_to_color(Variant::Wall), (0x7F, 0x7F, 0x7F));
    assert_eq!(particle_to_color(Variant::Sand), (0xFF, 0xFF, 0x00));
    assert_eq!(particle_to_color(Variant::Water), (0x00, 0x00, 0xFF));
}

#[test]
fn both_colour_functions_agree() {
    for v in ALL {
        assert_eq!(particle_to_color(v), silica_engine::variant::particle_to_color(v));
    }
}

#[test]
fn variants_have_their_ordinals() {
    assert_eq!(Variant::Empty.ordinal(), 0);
    assert_eq!(Variant::Wall.ordinal(), 1);
    assert_eq!(Variant::Sand.ordinal(), 2);
    assert_eq!(Variant::Water.ordinal(), 3);
    assert_eq!(VARIANT_COUNT, 4);
}

#[test]
fn the_catalogue_holds_every_variant_at_its_ordinal() {
    let table = variants();
    assert_eq!(table.len(), VARIANT_COUNT);
    for v in ALL {
        assert_eq!(table[v.ordinal()], variant_type(v));
        assert_eq!(table[v.ordinal()].source_variant, v);
    }
}

#[test]
fn the_catalogue_gives_each_variant_its_colour() {
    for v in ALL {
        let entry = variant_type(v);
        assert_eq!(entry.color, particle_to_color(v));
        assert_eq!(entry.color2, particle_to_color(v));
        assert_eq!(entry.weight, 0);
        assert_eq!(entry.source_variant, v);
    }
}

#[test]
fn only_walls_cannot_be_erased() {
    assert_eq!(variant_type(Variant::Wall).variant_property, VariantProperty::UnErasable);
    assert_eq!(variant_type(Variant::Empty).variant_property, VariantProperty::Erasable);
    assert_eq!(variant_type(Variant::Sand).variant_property, VariantProperty::Erasable);
    assert_eq!(variant_type(Variant::Water).variant_property, VariantProperty::Erasable);
}

#[test]
fn variants_have_their_groups() {
    assert_eq!(variant_type(Variant::Empty).group, VariantGroup::Void);
    assert_eq!(variant_type(Variant::Wall).group, VariantGroup::Wall);
    assert_eq!(variant_type(Variant::Sand).group, VariantGroup::Powder);
    assert_eq!(variant_type(Variant::Water).group, VariantGroup::Fluid);
}
