use falling_sand::catalog::{FIRE_ID, GAS_ID, ROCK_ID, SAND_ID, WALL_ID};
use falling_sand::element::ElementId;
use falling_sand::pens::{DeletePen, ElementPen};
use falling_sand::simple_elements::{sand, wall};
use falling_sand::tile::{ElementState, Tile, Vector};
use falling_sand::util::{
    create_walls, populate_world, populate_world_bullet, populate_world_pileup,
    populate_world_water_bubble,
};
use falling_sand::world::World;
use falling_sand::world_view::CollisionView;
use falling_sand::{coords, point, WORLD_CELLS};

type NoReaction = fn(Tile, Tile) -> (Option<Tile>, Option<Tile>);
type NoSideEffect =
    for<'a> fn(Tile, Tile, CollisionView<'a, Option<Tile>>) -> (Option<Tile>, Option<Tile>);

fn blank_world() -> World<NoReaction, NoSideEffect> {
    World::new(19)
}

#[test]
fn walls_stand_on_the_edge_of_the_grid_and_nowhere_else() {
    let mut world = blank_world();
    *world.index_mut(point(50, 50)) = Some(Tile::stationary(
        ElementState::default(ElementId(SAND_ID)),
        20,
    ));
    *world.index_mut(point(0, 50)) = Some(Tile::stationary(
        ElementState::default(ElementId(SAND_ID)),
        20,
    ));
    create_walls(&mut world);
    for i in 0..WORLD_CELLS {
        let (x, y) = coords(i);
        let cell = world.index(i);
        if x == 0 || x == 199 || y == 0 || y == 199 {
            let tile = cell.unwrap();
            assert_eq!(tile.element_id(), WALL_ID);
            assert_eq!(tile.special_info(), 1);
            assert!(tile.velocity.is_zero());
            assert!(tile.position.is_zero());
            assert!(!tile.paused);
            assert_eq!(tile.temperature, 20);
        } else if (x, y) == (50, 50) {
            assert_eq!(cell.unwrap().element_id(), SAND_ID);
        } else {
            assert!(cell.is_none());
        }
    }
}

#[test]
fn the_bullet_is_one_tile_of_gas_at_full_speed() {
    let mut world = blank_world();
    populate_world_bullet(&mut world);
    let mut tiles = 0;
    for i in 0..WORLD_CELLS {
        if let Some(tile) = world.index(i) {
            tiles += 1;
            assert_eq!(i, point(10, 10));
            assert_eq!(tile.element_id(), GAS_ID);
            assert_eq!(tile.velocity, Vector { x: 127, y: 0 });
            assert!(tile.position.is_zero());
        }
    }
    assert_eq!(tiles, 1);
}

#[test]
fn the_water_bubble_is_a_sleeping_floor_and_a_block_above_it() {
    let mut world = blank_world();
    populate_world_water_bubble(&mut world);
    for i in 0..WORLD_CELLS {
        let (x, y) = coords(i);
        let in_floor = (1..199).contains(&x) && (180..199).contains(&y);
        let in_block = (20..180).contains(&x) && (135..155).contains(&y);
        match world.index(i) {
            Some(tile) => {
                assert!(in_floor || in_block);
                assert_eq!(tile.element_id(), SAND_ID);
                assert!(tile.velocity.is_zero());
                assert_eq!(tile.paused, in_floor);
            }
            None => assert!(!in_floor && !in_block),
        }
    }
}

#[test]
fn the_pileup_is_a_block_at_rest_and_one_that_flies_toward_it() {
    let mut world = blank_world();
    populate_world_pileup(&mut world);
    let mut tiles = 0;
    for i in 0..WORLD_CELLS {
        let (x, y) = coords(i);
        if let Some(tile) = world.index(i) {
            tiles += 1;
            assert_eq!(tile.element_id(), GAS_ID);
            assert!((5..10).contains(&y));
            if (5..10).contains(&x) {
                assert!(tile.velocity.is_zero());
            } else {
                assert!((55..60).contains(&x));
                assert_eq!(tile.velocity, Vector { x: -10, y: 0 });
            }
        }
    }
    assert_eq!(tiles, 50);
}

#[test]
fn the_scattered_tiles_land_in_their_square() {
    let mut world = blank_world();
    populate_world(&mut world);
    let mut tiles = 0;
    let mut moving = 0;
    for i in 0..WORLD_CELLS {
        let (x, y) = coords(i);
        if let Some(tile) = world.index(i) {
            tiles += 1;
            assert!((15..35).contains(&x));
            assert!((5..25).contains(&y));
            let element = tile.element_id();
            assert!(element == ROCK_ID || element == SAND_ID || element == FIRE_ID);
            assert_eq!(tile.temperature, if element == FIRE_ID { 500 } else { 20 });
            assert!(tile.velocity.x == -1 || tile.velocity.x == 0);
            assert!(tile.velocity.y == -1 || tile.velocity.y == 0);
            if !tile.velocity.is_zero() {
                moving += 1;
            }
        }
    }
    assert!(tiles >= 1 && tiles <= 45);
    assert!(tiles > 10);
    assert!(moving > 0);
    // Nothing lands on the last tile, which is of fire.
    let fires = (0..WORLD_CELLS)
        .filter(|&i| matches!(world.index(i), Some(tile) if tile.element_id() == FIRE_ID))
        .count();
    assert!(fires >= 1 && fires <= 15);
}

#[test]
fn the_delete_pen_spares_walls_and_what_is_out_of_reach() {
    let mut world = blank_world();
    create_walls(&mut world);
    populate_world_pileup(&mut world);
    let mut pen = DeletePen { radius: 2 };
    assert_eq!(pen.get_radius(), 2);
    pen.draw(&mut world, 6, 6);
    for i in 0..WORLD_CELLS {
        let (x, y) = coords(i);
        if (4..=8).contains(&x) && (4..=8).contains(&y) {
            assert!(world.index(i).is_none());
        }
    }
    assert!(world.index(point(9, 6)).is_some());
    assert!(world.index(point(6, 9)).is_some());
    assert!(world.index(point(57, 7)).is_some());
    // At the corner only the walls are in reach.
    pen.set_radius(3);
    assert_eq!(pen.get_radius(), 3);
    pen.draw(&mut world, -1, -1);
    assert_eq!(world.index(point(0, 0)).unwrap().element_id(), WALL_ID);
    assert_eq!(world.index(point(2, 0)).unwrap().element_id(), WALL_ID);
    pen.draw(&mut world, 1000, 1000);
    pen.set_radius(-1);
    pen.draw(&mut world, 57, 7);
    assert!(world.index(point(57, 7)).is_some());
    pen.set_radius(0);
    pen.draw(&mut world, 57, 7);
    assert!(world.index(point(57, 7)).is_none());
    assert!(world.index(point(58, 7)).is_some());
    pen.set_radius(i32::MAX);
    pen.draw(&mut world, i32::MAX, i32::MIN);
    assert!(world.index(point(58, 7)).is_some());
    pen.draw(&mut world, 0, 0);
    for i in 0..WORLD_CELLS {
        let (x, y) = coords(i);
        let on_edge = x == 0 || x == 199 || y == 0 || y == 199;
        assert_eq!(world.index(i).is_some(), on_edge);
    }
}

#[test]
fn the_element_pen_fills_empty_cells_only() {
    let mut world = blank_world();
    let rock = Tile::stationary(ElementState::new(ElementId(ROCK_ID), 9), 77);
    *world.index_mut(point(10, 10)) = Some(rock);
    let mut pen = ElementPen { element: sand(), radius: 1 };
    pen.draw(&mut world, 10, 10);
    let mut tiles = 0;
    for i in 0..WORLD_CELLS {
        let (x, y) = coords(i);
        if let Some(tile) = world.index(i) {
            tiles += 1;
            assert!((9..=11).contains(&x) && (9..=11).contains(&y));
            if (x, y) == (10, 10) {
                assert_eq!(tile.element_id(), ROCK_ID);
                assert_eq!(tile.temperature, 77);
            } else {
                assert_eq!(tile.element_id(), SAND_ID);
                assert_eq!(tile.special_info(), 1);
                assert_eq!(tile.temperature, 20);
                assert!(tile.position.is_zero());
                assert!(!tile.paused);
                assert!((-20..=20).contains(&tile.velocity.x));
                assert!((-20..=20).contains(&tile.velocity.y));
            }
        }
    }
    assert_eq!(tiles, 9);
    assert_eq!(pen.get_radius(), 1);
    pen.set_radius(4);
    assert_eq!(pen.get_radius(), 4);
    assert_eq!(pen.element.id, SAND_ID);
}

#[test]
fn the_element_pen_draws_fixed_tiles_at_rest_and_free_tiles_in_motion() {
    let mut world = blank_world();
    let mut pen = ElementPen { element: wall(), radius: 5 };
    pen.draw(&mut world, 50, 50);
    for x in 45..=55 {
        for y in 45..=55 {
            let tile = world.index(point(x, y)).unwrap();
            assert_eq!(tile.element_id(), WALL_ID);
            assert!(tile.velocity.is_zero());
        }
    }
    let mut pen = ElementPen { element: sand(), radius: 10 };
    pen.draw(&mut world, 100, 100);
    let mut different = 0;
    let first = world.index(point(100, 100)).unwrap().velocity;
    for x in 90..=110 {
        for y in 90..=110 {
            if world.index(point(x, y)).unwrap().velocity != first {
                different += 1;
            }
        }
    }
    assert!(different > 0);
    // Partly out of the grid.
    let mut pen = ElementPen { element: sand(), radius: 1 };
    pen.draw(&mut world, 0, 199);
    assert!(world.index(point(0, 199)).is_some());
    assert!(world.index(point(1, 198)).is_some());
    assert!(world.index(point(2, 199)).is_none());
}
