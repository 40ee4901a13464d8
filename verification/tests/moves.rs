use falling_sand::catalog::{GAS_ID, ROCK_ID, SAND_ID, WALL_ID, WATER_ID};
use falling_sand::element::ElementId;
use falling_sand::tile::{ElementState, Tile, Vector};
use falling_sand::world::World;
use falling_sand::world_view::CollisionView;
use falling_sand::point;

type MoveReaction = fn(Tile, Tile) -> (Option<Tile>, Option<Tile>);
type MoveSideEffect =
    for<'a> fn(Tile, Tile, CollisionView<'a, Option<Tile>>) -> (Option<Tile>, Option<Tile>);

fn quiet_world() -> World<MoveReaction, MoveSideEffect> {
    World::new(19)
}

fn mover(element: u8, vx: i8, vy: i8, temperature: i16) -> Tile {
    Tile::new(
        ElementState::default(ElementId(element)),
        Vector { x: 0, y: 0 },
        Vector { x: vx, y: vy },
        temperature,
    )
}

#[test]
fn a_tile_moves_into_an_empty_cell() {
    let mut world = quiet_world();
    *world.index_mut(point(5, 5)) = Some(mover(SAND_ID, 7, 8, 20));
    world.move_particle(point(5, 5), point(6, 5));
    assert!(world.index(point(5, 5)).is_none());
    let moved = world.index(point(6, 5)).unwrap();
    assert_eq!(moved.element_id(), SAND_ID);
    assert_eq!(moved.velocity, Vector { x: 7, y: 8 });
}

#[test]
fn a_move_from_an_empty_cell_does_nothing() {
    let mut world = quiet_world();
    *world.index_mut(point(6, 5)) = Some(mover(SAND_ID, 7, 8, 20));
    world.move_particle(point(5, 5), point(6, 5));
    assert!(world.index(point(5, 5)).is_none());
    assert_eq!(world.index(point(6, 5)).unwrap().velocity, Vector { x: 7, y: 8 });
}

#[test]
fn a_move_wakes_the_tile_above_the_cell_that_is_left() {
    let mut world = quiet_world();
    let mut sleeper = mover(SAND_ID, 0, 0, 20);
    sleeper.paused = true;
    *world.index_mut(point(5, 5)) = Some(mover(SAND_ID, 0, 9, 20));
    *world.index_mut(point(5, 4)) = Some(sleeper);
    *world.index_mut(point(4, 5)) = Some(sleeper);
    world.move_particle(point(5, 5), point(5, 6));
    assert!(!world.index(point(5, 4)).unwrap().paused);
    assert!(world.index(point(4, 5)).unwrap().paused);
}

#[test]
fn a_tile_bounces_off_a_fixed_tile() {
    let mut world = quiet_world();
    *world.index_mut(point(5, 5)) = Some(mover(SAND_ID, 10, 3, 100));
    *world.index_mut(point(6, 5)) = Some(mover(WALL_ID, 0, 0, 21));
    world.move_particle(point(5, 5), point(6, 5));
    let sand = world.index(point(5, 5)).unwrap();
    assert_eq!(sand.velocity, Vector { x: -5, y: 3 });
    assert_eq!(sand.temperature, 60);
    let wall = world.index(point(6, 5)).unwrap();
    assert_eq!(wall.element_id(), WALL_ID);
    assert!(wall.velocity.is_zero());
    assert_eq!(wall.temperature, 60);
}

#[test]
fn gas_bounces_off_a_wall_without_loss() {
    let mut world = quiet_world();
    *world.index_mut(point(5, 5)) = Some(mover(GAS_ID, 3, 50, 20));
    *world.index_mut(point(5, 6)) = Some(mover(WALL_ID, 0, 0, 20));
    world.move_particle(point(5, 5), point(5, 6));
    assert_eq!(world.index(point(5, 5)).unwrap().velocity, Vector { x: 3, y: -50 });
}

#[test]
fn two_free_tiles_exchange_velocity_along_the_axis_of_the_move() {
    let mut world = quiet_world();
    *world.index_mut(point(5, 5)) = Some(mover(SAND_ID, 1, 10, 20));
    *world.index_mut(point(5, 6)) = Some(mover(SAND_ID, 2, -10, 20));
    world.move_particle(point(5, 5), point(5, 6));
    assert_eq!(world.index(point(5, 5)).unwrap().velocity, Vector { x: 1, y: -8 });
    assert_eq!(world.index(point(5, 6)).unwrap().velocity, Vector { x: 2, y: 8 });

    *world.index_mut(point(9, 5)) = Some(mover(ROCK_ID, 20, 1, 20));
    *world.index_mut(point(10, 5)) = Some(mover(SAND_ID, 0, 2, 20));
    world.move_particle(point(9, 5), point(10, 5));
    assert_eq!(world.index(point(9, 5)).unwrap().velocity, Vector { x: 10, y: 1 });
    assert_eq!(world.index(point(10, 5)).unwrap().velocity, Vector { x: 26, y: 2 });
}

#[test]
fn a_diagonal_move_collides_along_the_y_axis() {
    let mut world = quiet_world();
    *world.index_mut(point(5, 5)) = Some(mover(SAND_ID, 10, 10, 20));
    *world.index_mut(point(6, 6)) = Some(mover(WALL_ID, 0, 0, 20));
    world.move_particle(point(5, 5), point(6, 6));
    assert_eq!(world.index(point(5, 5)).unwrap().velocity, Vector { x: 10, y: -5 });
}

#[test]
fn a_collision_wakes_the_tile_that_is_hit() {
    let mut world = quiet_world();
    let mut sleeper = mover(SAND_ID, 0, 0, 20);
    sleeper.paused = true;
    *world.index_mut(point(5, 5)) = Some(mover(SAND_ID, 0, 10, 20));
    *world.index_mut(point(5, 6)) = Some(sleeper);
    world.move_particle(point(5, 5), point(5, 6));
    let hit = world.index(point(5, 6)).unwrap();
    assert!(!hit.paused);
    assert_eq!(hit.velocity, Vector { x: 0, y: 8 });
    assert_eq!(world.index(point(5, 5)).unwrap().velocity, Vector { x: 0, y: 0 });
}

#[test]
fn colliding_tiles_share_the_mean_of_their_temperatures() {
    let mut world = quiet_world();
    *world.index_mut(point(5, 5)) = Some(mover(SAND_ID, 0, 10, -3));
    *world.index_mut(point(5, 6)) = Some(mover(SAND_ID, 0, 0, 0));
    world.move_particle(point(5, 5), point(5, 6));
    assert_eq!(world.index(point(5, 5)).unwrap().temperature, -1);
    assert_eq!(world.index(point(5, 6)).unwrap().temperature, -1);

    *world.index_mut(point(9, 5)) = Some(mover(SAND_ID, 0, 10, i16::MAX));
    *world.index_mut(point(9, 6)) = Some(mover(SAND_ID, 0, 0, i16::MAX));
    world.move_particle(point(9, 5), point(9, 6));
    assert_eq!(world.index(point(9, 5)).unwrap().temperature, i16::MAX);
}

#[test]
fn a_push_through_a_fluid_exchanges_the_tiles_after_the_collision() {
    let mut world = quiet_world();
    *world.index_mut(point(5, 5)) = Some(mover(SAND_ID, 0, 10, 20));
    *world.index_mut(point(5, 6)) = Some(mover(WATER_ID, 0, 0, 20));
    world.resolve_move(point(5, 5), point(5, 6), true);
    let below = world.index(point(5, 6)).unwrap();
    let above = world.index(point(5, 5)).unwrap();
    assert_eq!(below.element_id(), SAND_ID);
    assert_eq!(above.element_id(), WATER_ID);
    // Sand (10) on water (8): 4 * (2 * 10) / (5 * 18) = 0, and 4 * 200 / 90 = 8.
    assert_eq!(below.velocity, Vector { x: 0, y: 0 });
    assert_eq!(above.velocity, Vector { x: 0, y: 8 });
}

#[test]
fn without_a_push_the_tiles_stay_where_they_are() {
    let mut world = quiet_world();
    *world.index_mut(point(5, 5)) = Some(mover(SAND_ID, 0, 10, 20));
    *world.index_mut(point(5, 6)) = Some(mover(WATER_ID, 0, 0, 20));
    world.resolve_move(point(5, 5), point(5, 6), false);
    assert_eq!(world.index(point(5, 5)).unwrap().element_id(), SAND_ID);
    assert_eq!(world.index(point(5, 6)).unwrap().element_id(), WATER_ID);
    assert_eq!(world.index(point(5, 6)).unwrap().velocity, Vector { x: 0, y: 8 });
}

#[test]
fn only_a_fluid_is_pushed_through() {
    let mut world = quiet_world();
    *world.index_mut(point(5, 5)) = Some(mover(SAND_ID, 0, 10, 20));
    *world.index_mut(point(5, 6)) = Some(mover(ROCK_ID, 0, 0, 20));
    world.resolve_move(point(5, 5), point(5, 6), true);
    assert_eq!(world.index(point(5, 5)).unwrap().element_id(), SAND_ID);
    assert_eq!(world.index(point(5, 6)).unwrap().element_id(), ROCK_ID);
}

#[test]
fn chance_decides_between_the_two_outcomes_of_a_move_into_a_fluid() {
    let mut pushed = 0;
    let mut stayed = 0;
    for _ in 0..200 {
        let mut world = quiet_world();
        *world.index_mut(point(5, 5)) = Some(mover(SAND_ID, 0, 10, 20));
        *world.index_mut(point(5, 6)) = Some(mover(WATER_ID, 0, 0, 20));
        world.move_particle(point(5, 5), point(5, 6));
        let below = world.index(point(5, 6)).unwrap().element_id();
        let above = world.index(point(5, 5)).unwrap().element_id();
        if below == SAND_ID {
            assert_eq!(above, WATER_ID);
            pushed += 1;
        } else {
            assert_eq!(below, WATER_ID);
            assert_eq!(above, SAND_ID);
            stayed += 1;
        }
    }
    assert_eq!(pushed + stayed, 200);
    assert!(pushed > 0);
    assert!(stayed > 0);
}
