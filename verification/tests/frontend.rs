use silica_engine::gameworld::GameWorld;
use silica_engine::manager::{Property, RenderMode, Tool};
use silica_engine::particle::{empty_cell, Particle};
use silica_engine::tools::Tools;
use silica_engine::utils::{draw_walls, erase_radius};
use silica_engine::variant::Variant;
use silica_engine::world::World;

fn fresh(p: Particle, variant: Variant) -> bool {
    p.variant == variant && p.rb == 0 && (p.ra == 100 || p.ra == 150)
}

fn sand() -> Particle {
    Particle { variant: Variant::Sand, ra: 1, rb: 2 }
}

#[test]
fn a_game_world_is_framed_by_walls_two_cells_thick() {
    let game = GameWorld::new(9, 7);
    assert_eq!(game.width(), 9);
    assert_eq!(game.height(), 7);
    assert!(game.running);
    for x in 0..9 {
        for y in 0..7 {
            let p = game.world.get_particle(x, y);
            if x < 2 || x >= 7 || y < 2 || y >= 5 {
                assert!(fresh(p, Variant::Wall));
            } else {
                assert_eq!(p, empty_cell());
            }
        }
    }
}

#[test]
fn a_small_game_world_is_all_wall() {
    let game = GameWorld::new(4, 3);
    for x in 0..4 {
        for y in 0..3 {
            assert!(fresh(game.world.get_particle(x, y), Variant::Wall));
        }
    }
}

#[test]
fn a_game_world_resets_to_its_walls() {
    let mut game = GameWorld::new(8, 8);
    game.world.put_particle(3, 3, sand());
    game.world.put_particle(4, 5, Particle { variant: Variant::Water, ra: 1, rb: 1 });
    game.world.put_particle(4, 4, Particle { variant: Variant::Wall, ra: 9, rb: 9 });
    let walls: Vec<Particle> = game.world.particles().clone();
    game.running = false;
    game.reset();
    assert!(!game.running);
    for x in 0..8 {
        for y in 0..8 {
            let p = game.world.get_particle(x, y);
            let was = walls[game.world.get_idx(x, y)];
            if was.variant == Variant::Wall {
                assert_eq!(p, was);
            } else {
                assert!(fresh(p, Variant::Empty));
            }
        }
    }
    assert_eq!(
        game.world.get_particle(4, 4),
        Particle { variant: Variant::Wall, ra: 9, rb: 9 }
    );
}

#[test]
fn a_game_world_ticks_its_world() {
    let mut game = GameWorld::new(8, 8);
    game.world.put_particle(4, 2, sand());
    game.tick();
    assert_eq!(game.world.generation(), 1);
    assert_eq!(game.world.get_particle(4, 2), empty_cell());
    assert!(game.running);
}

#[test]
fn the_brush_paints_a_square_around_its_centre() {
    // size 4: two cells before the centre, two from it on
    let mut game = GameWorld::new(12, 12);
    let before: Vec<Particle> = game.world.particles().clone();
    let mut tools = Tools { variant: Variant::Sand, tool_size: 4 };
    tools.paint(&mut game, 5, 6);
    assert_eq!(tools.tool_size, 4);
    assert_eq!(tools.variant, Variant::Sand);
    for x in 0..12 {
        for y in 0..12 {
            let p = game.world.get_particle(x, y);
            if 3 <= x && x < 7 && 4 <= y && y < 8 {
                assert!(fresh(p, Variant::Sand));
            } else {
                assert_eq!(p, before[game.world.get_idx(x, y)]);
            }
        }
    }
}

#[test]
fn an_odd_brush_reaches_one_cell_further() {
    // size 5: half is 2, and 5 leaves 1 when divided by 2
    let mut game = GameWorld::new(14, 14);
    let mut tools = Tools { variant: Variant::Water, tool_size: 5 };
    tools.paint_specific_variant(&mut game, 6, 6, Variant::Water);
    let mut painted = 0;
    for x in 0..14 {
        for y in 0..14 {
            if game.world.get_particle(x, y).variant == Variant::Water {
                assert!(4 <= x && x < 9 && 4 <= y && y < 9);
                painted += 1;
            }
        }
    }
    assert_eq!(painted, 25);
}

#[test]
fn a_brush_of_size_one_or_zero_paints_nothing() {
    for size in 0..2 {
        let mut game = GameWorld::new(10, 10);
        let before: Vec<Particle> = game.world.particles().clone();
        let mut tools = Tools { variant: Variant::Sand, tool_size: size };
        tools.paint(&mut game, 5, 5);
        tools.paint_specific_variant(&mut game, 5, 5, Variant::Water);
        assert_eq!(game.world.particles(), &before);
    }
}

#[test]
fn the_brush_stops_at_the_first_wall() {
    let mut game = GameWorld::new(12, 12);
    game.world.put_particle(4, 5, Particle { variant: Variant::Wall, ra: 9, rb: 9 });
    let before: Vec<Particle> = game.world.particles().clone();
    let mut tools = Tools { variant: Variant::Sand, tool_size: 4 };
    tools.paint(&mut game, 5, 6);
    // the stroke covers the columns 3 to 6 and the rows 4 to 7; it walks
    // column 3, the first cell of column 4, and stops at (4, 5)
    for x in 0..12 {
        for y in 0..12 {
            let p = game.world.get_particle(x, y);
            let reached = 4 <= y && y < 8 && (x == 3 || (x == 4 && y < 5));
            if reached {
                assert!(fresh(p, Variant::Sand));
            } else {
                assert_eq!(p, before[game.world.get_idx(x, y)]);
            }
        }
    }
}

#[test]
fn the_brush_that_starts_on_a_wall_paints_nothing() {
    let mut game = GameWorld::new(12, 12);
    let before: Vec<Particle> = game.world.particles().clone();
    let mut tools = Tools { variant: Variant::Sand, tool_size: 4 };
    tools.paint(&mut game, 2, 5);
    assert_eq!(game.world.particles(), &before);
}

#[test]
fn painting_a_given_variant_goes_over_walls() {
    let mut game = GameWorld::new(12, 12);
    let before: Vec<Particle> = game.world.particles().clone();
    let mut tools = Tools { variant: Variant::Sand, tool_size: 4 };
    tools.paint_specific_variant(&mut game, 2, 5, Variant::Empty);
    // the centre is no further than the half from the edge: the stroke
    // starts at column 1, and ends before column 4
    for x in 0..12 {
        for y in 0..12 {
            let p = game.world.get_particle(x, y);
            if 1 <= x && x < 4 && 3 <= y && y < 7 {
                assert!(fresh(p, Variant::Empty));
            } else {
                assert_eq!(p, before[game.world.get_idx(x, y)]);
            }
        }
    }
}

#[test]
fn the_brush_ends_before_the_last_column_and_row() {
    let mut game = GameWorld::new(10, 10);
    let before: Vec<Particle> = game.world.particles().clone();
    let mut tools = Tools { variant: Variant::Sand, tool_size: 6 };
    tools.paint_specific_variant(&mut game, 8, 9, Variant::Water);
    for x in 0..10 {
        for y in 0..10 {
            let p = game.world.get_particle(x, y);
            if 5 <= x && x < 9 && 6 <= y && y < 9 {
                assert!(fresh(p, Variant::Water));
            } else {
                assert_eq!(p, before[game.world.get_idx(x, y)]);
            }
        }
    }
}

#[test]
fn the_brush_far_outside_paints_nothing() {
    let mut game = GameWorld::new(10, 10);
    let before: Vec<Particle> = game.world.particles().clone();
    let mut tools = Tools { variant: Variant::Sand, tool_size: 6 };
    tools.paint_specific_variant(&mut game, usize::MAX, usize::MAX, Variant::Water);
    tools.paint(&mut game, usize::MAX, 3);
    let mut huge = Tools { variant: Variant::Sand, tool_size: usize::MAX };
    huge.paint(&mut game, usize::MAX, usize::MAX);
    assert_eq!(game.world.particles(), &before);
}

#[test]
fn walls_are_drawn_on_the_edge() {
    let mut world = World::new(6, 5);
    world.put_particle(2, 2, sand());
    draw_walls(&mut world);
    for x in 0..6 {
        for y in 0..5 {
            let p = world.get_particle(x, y);
            if x == 0 || x == 5 || y == 0 || y == 4 {
                assert!(fresh(p, Variant::Wall));
            } else if x == 2 && y == 2 {
                assert_eq!(p, sand());
            } else {
                assert_eq!(p, empty_cell());
            }
        }
    }
}

#[test]
fn walls_are_drawn_on_a_world_of_one_cell() {
    let mut world = World::new(1, 1);
    draw_walls(&mut world);
    assert!(fresh(world.get_particle(0, 0), Variant::Wall));
}

#[test]
fn the_eraser_empties_a_disc() {
    let mut world = World::new(9, 9);
    for x in 0..9 {
        for y in 0..9 {
            world.put_particle(x, y, sand());
        }
    }
    erase_radius(&mut world, 4, 4, 3);
    for x in 0..9 {
        for y in 0..9 {
            let dx = x - 4;
            let dy = y - 4;
            let p = world.get_particle(x, y);
            if -3 <= dx && dx < 3 && -3 <= dy && dy < 3 && dx * dx + dy * dy < 9 {
                assert!(fresh(p, Variant::Empty));
            } else {
                assert_eq!(p, sand());
            }
        }
    }
    // the disc of radius 3 holds the 5 by 5 square around the centre
    // without its corners
    assert!(fresh(world.get_particle(2, 2), Variant::Empty));
    assert_eq!(world.get_particle(1, 4), sand());
    assert!(fresh(world.get_particle(2, 4), Variant::Empty));
}

#[test]
fn the_eraser_of_radius_one_empties_the_centre() {
    let mut world = World::new(3, 3);
    for x in 0..3 {
        for y in 0..3 {
            world.put_particle(x, y, sand());
        }
    }
    erase_radius(&mut world, 0, 0, 1);
    assert!(fresh(world.get_particle(0, 0), Variant::Empty));
    assert_eq!(world.get_particle(1, 0), sand());
    assert_eq!(world.get_particle(0, 1), sand());
}

#[test]
fn the_eraser_of_no_radius_erases_nothing() {
    let mut world = World::new(3, 3);
    world.put_particle(1, 1, sand());
    erase_radius(&mut world, 1, 1, 0);
    erase_radius(&mut world, 1, 1, -4);
    erase_radius(&mut world, -100, 500, i32::MIN);
    assert_eq!(world.get_particle(1, 1), sand());
}

#[test]
fn a_tool_is_of_one_kind() {
    let element = Tool::ElementTool(Variant::Sand);
    assert_eq!(element.get_variant(), Some(Variant::Sand));
    assert_eq!(element.get_property(), None);
    let property = Tool::PropertyTool(Property::Pressure);
    assert_eq!(property.get_variant(), None);
    assert_eq!(property.get_property(), Some(Property::Pressure));
}

#[test]
fn properties_have_four_letter_labels() {
    assert_eq!(Property::Temperature.label(), "HEAT");
    assert_eq!(Property::COOL.label(), "COOL");
    assert_eq!(Property::Pressure.label(), "PRSR");
    assert_eq!(Property::DelWall.label(), "DELW");
}

#[test]
fn render_modes_differ() {
    assert_ne!(RenderMode::Normal, RenderMode::Heat);
}

#[test]
fn a_paused_game_world_does_not_update() {
    let mut game = GameWorld::new(8, 8);
    game.world.put_particle(4, 2, sand());
    game.running = false;
    let before: Vec<Particle> = game.world.particles().clone();
    game.update();
    assert_eq!(game.world.particles(), &before);
    assert_eq!(game.world.generation(), 0);
    assert!(!game.running);
}

#[test]
fn a_running_game_world_updates_by_one_tick() {
    let mut game = GameWorld::new(8, 8);
    game.world.put_particle(4, 2, sand());
    game.update();
    assert_eq!(game.world.generation(), 1);
    assert_eq!(game.world.get_particle(4, 2), empty_cell());
    assert_eq!(game.world.particle_count(), 64 - 16 + 1);
    assert!(game.running);
}

#[test]
fn a_game_world_renders_four_bytes_per_cell() {
    let mut game = GameWorld::new(5, 5);
    game.world.put_particle(2, 2, sand());
    game.world.put_particle(1, 2, Particle { variant: Variant::Water, ra: 0, rb: 0 });
    let mut data = vec![7u8; 5 * 5 * 4 + 3];
    game.render(&mut data);
    assert_eq!(data.len(), 103);
    for y in 0..5 {
        for x in 0..5 {
            let at = game.world.get_idx(x, y) * 4;
            let pixel = &data[at..at + 4];
            if x == 2 && y == 2 {
                assert_eq!(pixel, &[0xFF, 0xFF, 0x00, 255]);
            } else if x == 1 && y == 2 {
                assert_eq!(pixel, &[0x00, 0x00, 0xFF, 255]);
            } else {
                assert_eq!(pixel, &[0x7F, 0x7F, 0x7F, 255]);
            }
        }
    }
    // what lies behind the picture is untouched
    assert_eq!(&data[100..], &[7, 7, 7]);
}

#[test]
fn an_empty_cell_renders_black() {
    let game = GameWorld::new(6, 6);
    let mut data = vec![1u8; 6 * 6 * 4];
    game.render(&mut data);
    let at = game.world.get_idx(3, 2) * 4;
    assert_eq!(&data[at..at + 4], &[0, 0, 0, 255]);
}
