use silica_engine::gameworld::GameWorld;
use silica_engine::particle::{empty_cell, Particle};
use silica_engine::variant::Variant;
use silica_engine::world::World;

fn sand() -> Particle {
    Particle { variant: Variant::Sand, ra: 100, rb: 5 }
}

fn water() -> Particle {
    Particle { variant: Variant::Water, ra: 150, rb: 6 }
}

fn wall() -> Particle {
    Particle { variant: Variant::Wall, ra: 1, rb: 2 }
}

fn count(world: &World, variant: Variant) -> usize {
    world.particles().iter().filter(|p| p.variant == variant).count()
}

fn occupied(world: &World) -> usize {
    world.particles().iter().filter(|p| p.variant != Variant::Empty).count()
}

fn find(world: &World, variant: Variant) -> Vec<(i32, i32)> {
    let mut found = Vec::new();
    for y in 0..world.height() {
        for x in 0..world.width() {
            if world.get_particle(x, y).variant == variant {
                found.push((x, y));
            }
        }
    }
    found
}

/// 5 by 5, walls in the bottom row, one grain of sand at (2, 0).
fn floor_and_grain() -> World {
    let mut world = World::new(5, 5);
    for x in 0..5 {
        world.put_particle(x, 4, wall());
    }
    world.put_particle(2, 0, sand());
    world
}

#[test]
fn a_world_of_walls_never_changes() {
    let mut world = World::new(7, 5);
    for x in 0..7 {
        for y in 0..5 {
            world.put_particle(x, y, Particle { variant: Variant::Wall, ra: x as u8, rb: y as u8 });
        }
    }
    let before: Vec<Particle> = world.particles().clone();
    for _ in 0..25 {
        world.tick();
        assert_eq!(world.particles(), &before);
    }
    world.tick_with(&vec![-1; 35]);
    world.tick_with(&vec![0; 35]);
    assert_eq!(world.particles(), &before);
}

#[test]
fn an_empty_world_never_changes() {
    let mut world = World::new(4, 4);
    for _ in 0..10 {
        world.tick();
    }
    for p in world.particles().iter() {
        assert_eq!(*p, empty_cell());
    }
}

#[test]
fn a_world_of_walls_and_gaps_never_changes() {
    let mut world = World::new(6, 6);
    world.put_particle(1, 1, wall());
    world.put_particle(4, 2, wall());
    world.put_particle(5, 5, wall());
    let before: Vec<Particle> = world.particles().clone();
    for _ in 0..10 {
        world.tick();
    }
    assert_eq!(world.particles(), &before);
}

#[test]
fn a_grain_on_draw_zero_falls_one_row_per_tick() {
    let mut world = floor_and_grain();
    world.tick_with(&vec![0; 25]);
    assert_eq!(find(&world, Variant::Sand), vec![(2, 1)]);
    assert_eq!(world.get_particle(2, 1), sand());
    assert_eq!(world.get_particle(2, 0), empty_cell());
    assert_eq!(world.get_particle(2, 2), empty_cell());
    assert_eq!(occupied(&world), 6);
    world.tick_with(&vec![0; 25]);
    assert_eq!(find(&world, Variant::Sand), vec![(2, 2)]);
    world.tick_with(&vec![0; 25]);
    // right above the walls
    assert_eq!(find(&world, Variant::Sand), vec![(2, 3)]);
    assert_eq!(world.get_particle(2, 3), sand());
    for x in 0..5 {
        assert_eq!(world.get_particle(x, 4), wall());
    }
    assert_eq!(count(&world, Variant::Wall), 5);
    assert_eq!(occupied(&world), 6);
    assert_eq!(world.generation(), 3);
}

#[test]
fn a_grain_above_the_last_row_falls_into_it() {
    // the last row lies outside the window: it reads as empty, and what it
    // holds is written over
    let mut world = floor_and_grain();
    for _ in 0..4 {
        world.tick_with(&vec![0; 25]);
    }
    assert_eq!(find(&world, Variant::Sand), vec![(2, 4)]);
    assert_eq!(count(&world, Variant::Wall), 4);
    assert_eq!(occupied(&world), 5);
    // in the last row it rests
    world.tick_with(&vec![0; 25]);
    world.tick_with(&vec![-1; 25]);
    assert_eq!(find(&world, Variant::Sand), vec![(2, 4)]);
    assert_eq!(count(&world, Variant::Wall), 4);
}

#[test]
fn a_grain_on_draw_minus_one_falls_one_row_per_tick_to_the_left() {
    let mut world = floor_and_grain();
    world.tick_with(&vec![-1; 25]);
    assert_eq!(find(&world, Variant::Sand), vec![(1, 1)]);
    world.tick_with(&vec![-1; 25]);
    assert_eq!(find(&world, Variant::Sand), vec![(0, 2)]);
    // in the first column there is no further left: it falls straight
    world.tick_with(&vec![-1; 25]);
    assert_eq!(find(&world, Variant::Sand), vec![(0, 3)]);
    assert_eq!(count(&world, Variant::Wall), 5);
    assert_eq!(occupied(&world), 6);
}

#[test]
fn a_grain_follows_the_draw_of_the_cell_it_is_in() {
    // straight down from (2, 0), to the left from (2, 1)
    let mut world = floor_and_grain();
    let mut dirs = vec![0; 25];
    dirs[2 + 1 * 5] = -1;
    world.tick_with(&dirs);
    assert_eq!(find(&world, Variant::Sand), vec![(2, 1)]);
    world.tick_with(&dirs);
    assert_eq!(find(&world, Variant::Sand), vec![(1, 2)]);
    assert_eq!(count(&world, Variant::Wall), 5);
}

#[test]
fn a_grain_under_any_draws_falls_one_row_per_tick() {
    for _ in 0..40 {
        let mut world = floor_and_grain();
        for tick in 1..4 {
            world.tick();
            let grains = find(&world, Variant::Sand);
            assert_eq!(grains.len(), 1);
            let (x, y) = grains[0];
            assert_eq!(y, tick);
            assert!(0 <= x && x <= 2);
            assert!(x >= 2 - tick);
            assert_eq!(count(&world, Variant::Wall), 5);
            assert_eq!(occupied(&world), 6);
        }
    }
}

#[test]
fn a_tick_never_adds_particles() {
    let mut world = World::new(8, 8);
    for x in 0..8 {
        world.put_particle(x, 0, sand());
        world.put_particle(x, 2, water());
    }
    world.put_particle(3, 5, wall());
    let mut last = occupied(&world);
    for _ in 0..30 {
        world.tick();
        let now = occupied(&world);
        assert!(now <= last);
        last = now;
    }
}

#[test]
fn an_enclosed_world_keeps_its_particles() {
    let mut game = GameWorld::new(12, 12);
    for x in 3..9 {
        game.world.put_particle(x, 2, sand());
        game.world.put_particle(x, 4, water());
    }
    let walls = count(&game.world, Variant::Wall);
    assert_eq!(walls, 144 - 64);
    for _ in 0..60 {
        game.world.tick();
        assert_eq!(count(&game.world, Variant::Sand), 6);
        assert_eq!(count(&game.world, Variant::Water), 6);
        assert_eq!(count(&game.world, Variant::Wall), walls);
        assert_eq!(occupied(&game.world), walls + 12);
    }
    // everything has come to rest on the floor of the frame or on each other
    for (x, y) in find(&game.world, Variant::Sand) {
        assert!(2 <= x && x < 10);
        assert!(2 <= y && y < 10);
    }
}

#[test]
fn sand_piles_up_on_a_floor_inside_the_window() {
    let mut world = World::new(7, 7);
    for x in 0..7 {
        world.put_particle(x, 5, wall());
        world.put_particle(x, 6, wall());
    }
    for y in 0..7 {
        world.put_particle(0, y, wall());
        world.put_particle(1, y, wall());
        world.put_particle(5, y, wall());
        world.put_particle(6, y, wall());
    }
    world.put_particle(3, 0, sand());
    for row in 1..5 {
        world.tick_with(&vec![0; 49]);
        assert_eq!(find(&world, Variant::Sand), vec![(3, row)]);
    }
    // on the floor it rests
    world.tick_with(&vec![0; 49]);
    assert_eq!(find(&world, Variant::Sand), vec![(3, 4)]);
    world.put_particle(3, 0, sand());
    for _ in 0..3 {
        world.tick_with(&vec![0; 49]);
    }
    assert_eq!(find(&world, Variant::Sand), vec![(3, 3), (3, 4)]);
    // the second grain comes down on the first and slides to its right
    world.tick_with(&vec![0; 49]);
    assert_eq!(find(&world, Variant::Sand), vec![(3, 4), (4, 4)]);
    assert_eq!(occupied(&world), 34 + 2);
}

#[test]
fn water_spreads_on_a_floor() {
    let mut world = World::new(7, 7);
    for x in 0..7 {
        world.put_particle(x, 5, wall());
        world.put_particle(x, 6, wall());
    }
    for y in 0..7 {
        world.put_particle(0, y, wall());
        world.put_particle(1, y, wall());
        world.put_particle(5, y, wall());
        world.put_particle(6, y, wall());
    }
    world.put_particle(3, 4, water());
    // nothing below is free: it moves left, a column already visited
    world.tick_with(&vec![0; 49]);
    assert_eq!(find(&world, Variant::Water), vec![(2, 4)]);
    // at the wall it moves right, is met again in the next column, and
    // moves back to the left
    world.tick_with(&vec![0; 49]);
    assert_eq!(find(&world, Variant::Water), vec![(2, 4)]);
    assert_eq!(occupied(&world), 34 + 1);
}

#[test]
fn a_later_visit_sees_what_an_earlier_one_wrote() {
    // the grain at (1, 0) cannot fall straight and moves down to the right,
    // into a column that the tick has not come to yet: it is met again at
    // (2, 1) and falls on to (2, 2)
    let mut world = World::new(5, 5);
    world.put_particle(1, 0, sand());
    world.put_particle(1, 1, wall());
    world.tick_with(&vec![0; 25]);
    assert_eq!(find(&world, Variant::Sand), vec![(2, 2)]);
    assert_eq!(world.get_particle(1, 1), wall());
}

#[test]
fn a_column_is_visited_from_the_bottom_up() {
    // two grains, one above the other: the lower one falls first and makes
    // room for the upper one
    let mut world = World::new(5, 6);
    world.put_particle(2, 0, sand());
    world.put_particle(2, 1, sand());
    world.tick_with(&vec![0; 30]);
    assert_eq!(find(&world, Variant::Sand), vec![(2, 1), (2, 2)]);
    world.tick_with(&vec![0; 30]);
    assert_eq!(find(&world, Variant::Sand), vec![(2, 2), (2, 3)]);
}

#[test]
fn tick_with_uses_the_draw_at_the_index_of_the_cell() {
    let mut world = World::new(5, 5);
    world.put_particle(3, 1, sand());
    let mut dirs = vec![0; 25];
    dirs[world.get_idx(3, 1)] = -1;
    dirs[world.get_idx(2, 2)] = -1;
    world.tick_with(&dirs);
    // to the left from (3, 1); column 2 is behind the scan, so it rests there
    assert_eq!(find(&world, Variant::Sand), vec![(2, 2)]);
}

#[test]
fn a_grain_painted_over_a_painted_floor_comes_to_stand_above_it() {
    let mut world = World::new(5, 5);
    for x in 0..5 {
        world.set_particle(x, 4, Variant::Wall);
    }
    world.set_particle(2, 0, Variant::Sand);
    let grain = world.get_particle(2, 0);
    world.tick_with(&vec![0; 25]);
    assert_eq!(world.get_particle(2, 1), grain);
    assert_eq!(world.get_particle(2, 0).variant, Variant::Empty);
    assert_eq!(world.get_particle(2, 2).variant, Variant::Empty);
    world.tick_with(&vec![0; 25]);
    world.tick_with(&vec![0; 25]);
    assert_eq!(find(&world, Variant::Sand), vec![(2, 3)]);
    assert_eq!(world.get_particle(2, 3), grain);
    for x in 0..5 {
        assert_eq!(world.get_particle(x, 4).variant, Variant::Wall);
    }
    assert_eq!(world.particle_count(), 6);
}
