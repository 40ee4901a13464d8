use falling_sand::catalog::{GAS_ID, ROCK_ID, SAND_ID, WALL_ID, WATER_ID};
use falling_sand::element::{ElementId, FIXED};
use falling_sand::tile::{ElementState, Tile, Vector};
use falling_sand::world::World;
use falling_sand::world_view::CollisionView;
use falling_sand::{point, WORLD_CELLS};

type Reaction = fn(Tile, Tile) -> (Option<Tile>, Option<Tile>);
type SideEffect =
    for<'a> fn(Tile, Tile, CollisionView<'a, Option<Tile>>) -> (Option<Tile>, Option<Tile>);

fn empty_world() -> World<Reaction, SideEffect> {
    World::new(19)
}

fn moving(element: u8, vx: i8, vy: i8) -> Tile {
    Tile::new(
        ElementState::default(ElementId(element)),
        Vector { x: 0, y: 0 },
        Vector { x: vx, y: vy },
        20,
    )
}

fn put(world: &mut World<Reaction, SideEffect>, x: i32, y: i32, tile: Tile) {
    *world.index_mut(point(x, y)) = Some(tile);
}

fn at(world: &World<Reaction, SideEffect>, x: i32, y: i32) -> Option<Tile> {
    *world.index(point(x, y))
}

#[test]
fn a_new_world_is_empty() {
    let world = empty_world();
    for i in 0..WORLD_CELLS {
        assert!(world.index(i).is_none());
    }
    assert_eq!(world.element_count(), 19);
    assert!(!world.has_collision_reaction(2, 4));
    assert!(!world.has_collision_side_effect(2, 4));
}

#[test]
fn cells_can_be_written_and_read() {
    let mut world = empty_world();
    put(&mut world, 5, 6, moving(SAND_ID, 1, 2));
    let tile = at(&world, 5, 6).unwrap();
    assert_eq!(tile.element_id(), SAND_ID);
    assert_eq!(tile.velocity, Vector { x: 1, y: 2 });
    assert!(at(&world, 6, 5).is_none());
    assert_eq!(
        world.state_at(point(5, 6)),
        Some(&ElementState::default(ElementId(SAND_ID)))
    );
    assert_eq!(world.state_at(point(6, 5)), None);
}

#[test]
fn swap_exchanges_two_cells() {
    let mut world = empty_world();
    put(&mut world, 5, 5, moving(SAND_ID, 1, 1));
    put(&mut world, 9, 9, moving(ROCK_ID, 2, 2));
    world.swap(point(5, 5), point(9, 9));
    assert_eq!(at(&world, 5, 5).unwrap().element_id(), ROCK_ID);
    assert_eq!(at(&world, 9, 9).unwrap().element_id(), SAND_ID);
    world.swap(point(5, 5), point(7, 7));
    assert!(at(&world, 5, 5).is_none());
    assert_eq!(at(&world, 7, 7).unwrap().element_id(), ROCK_ID);
}

#[test]
fn swap_wakes_the_pile_above_the_first_cell() {
    let mut world = empty_world();
    let mut sleeper = moving(SAND_ID, 0, 0);
    sleeper.paused = true;
    put(&mut world, 5, 10, moving(SAND_ID, 0, 0));
    put(&mut world, 5, 9, sleeper);
    put(&mut world, 5, 8, sleeper);
    // A gap at row 7, then another sleeper that the walk does not reach.
    put(&mut world, 5, 6, sleeper);
    put(&mut world, 6, 9, sleeper);
    world.swap(point(5, 10), point(5, 11));
    assert!(at(&world, 5, 10).is_none());
    assert!(!at(&world, 5, 9).unwrap().paused);
    assert!(!at(&world, 5, 8).unwrap().paused);
    assert!(at(&world, 5, 6).unwrap().paused);
    assert!(at(&world, 6, 9).unwrap().paused);
}

#[test]
fn wake_stops_at_the_first_tile_that_is_awake() {
    let mut world = empty_world();
    let mut sleeper = moving(SAND_ID, 0, 0);
    sleeper.paused = true;
    put(&mut world, 5, 9, sleeper);
    put(&mut world, 5, 8, moving(SAND_ID, 0, 0));
    put(&mut world, 5, 7, sleeper);
    world.wake(Some(point(5, 9)));
    assert!(!at(&world, 5, 9).unwrap().paused);
    assert!(!at(&world, 5, 8).unwrap().paused);
    assert!(at(&world, 5, 7).unwrap().paused);
    world.wake(None);
    assert!(at(&world, 5, 7).unwrap().paused);
}

#[test]
fn the_floor_is_stable_under_the_grid_on_fixed_and_on_sleeping_tiles() {
    let mut world = empty_world();
    // The last row rests on the end of the grid.
    assert!(world.has_stable_floor(point(5, 199)));
    // Nothing below: no floor.
    assert!(!world.has_stable_floor(point(5, 5)));
    put(&mut world, 5, 6, moving(WALL_ID, 0, 0));
    assert!(world.has_stable_floor(point(5, 5)));
    put(&mut world, 7, 6, moving(SAND_ID, 0, 0));
    assert!(!world.has_stable_floor(point(7, 5)));
    let mut sleeper = moving(SAND_ID, 0, 0);
    sleeper.paused = true;
    put(&mut world, 8, 6, sleeper);
    assert!(world.has_stable_floor(point(8, 5)));
}

#[test]
fn a_slow_tile_on_a_stable_floor_falls_asleep() {
    let mut world = empty_world();
    put(&mut world, 5, 6, moving(WALL_ID, 0, 0));
    put(&mut world, 5, 5, moving(SAND_ID, 3, -3));
    // Too fast on one axis.
    put(&mut world, 6, 6, moving(WALL_ID, 0, 0));
    put(&mut world, 6, 5, moving(SAND_ID, 4, 0));
    put(&mut world, 7, 6, moving(WALL_ID, 0, 0));
    put(&mut world, 7, 5, moving(SAND_ID, 0, -4));
    // Exempt from sleep.
    put(&mut world, 8, 6, moving(WALL_ID, 0, 0));
    put(&mut world, 8, 5, moving(WATER_ID, 0, 0));
    // No floor.
    put(&mut world, 9, 5, moving(SAND_ID, 0, 0));
    // On the last row.
    put(&mut world, 10, 199, moving(ROCK_ID, 1, 1));
    world.pause_particles();
    let slept = at(&world, 5, 5).unwrap();
    assert!(slept.paused);
    assert!(slept.velocity.is_zero());
    assert!(!at(&world, 6, 5).unwrap().paused);
    assert_eq!(at(&world, 6, 5).unwrap().velocity, Vector { x: 4, y: 0 });
    assert!(!at(&world, 7, 5).unwrap().paused);
    assert!(!at(&world, 8, 5).unwrap().paused);
    assert!(!at(&world, 9, 5).unwrap().paused);
    let last = at(&world, 10, 199).unwrap();
    assert!(last.paused);
    assert!(last.velocity.is_zero());
    // The walls are slow, not exempt, and rest on nothing: they stay awake.
    assert!(!at(&world, 5, 6).unwrap().paused);
}

#[test]
fn sleep_spreads_upward_one_pass_at_a_time() {
    let mut world = empty_world();
    put(&mut world, 5, 10, moving(WALL_ID, 0, 0));
    put(&mut world, 5, 9, moving(SAND_ID, 0, 0));
    put(&mut world, 5, 8, moving(SAND_ID, 0, 0));
    world.pause_particles();
    assert!(at(&world, 5, 9).unwrap().paused);
    assert!(!at(&world, 5, 8).unwrap().paused);
    world.pause_particles();
    assert!(at(&world, 5, 8).unwrap().paused);
}

#[test]
fn gravity_pulls_awake_free_tiles_that_feel_it() {
    let mut world = empty_world();
    put(&mut world, 5, 5, moving(SAND_ID, 2, 0));
    put(&mut world, 6, 5, moving(SAND_ID, 0, 126));
    put(&mut world, 7, 5, moving(SAND_ID, 0, 127));
    put(&mut world, 8, 5, moving(WALL_ID, 0, 0));
    put(&mut world, 9, 5, moving(GAS_ID, 0, 0));
    let mut sleeper = moving(SAND_ID, 0, 0);
    sleeper.paused = true;
    put(&mut world, 10, 5, sleeper);
    world.apply_gravity();
    assert_eq!(at(&world, 5, 5).unwrap().velocity, Vector { x: 2, y: 1 });
    assert_eq!(at(&world, 6, 5).unwrap().velocity, Vector { x: 0, y: 127 });
    assert_eq!(at(&world, 7, 5).unwrap().velocity, Vector { x: 0, y: 127 });
    assert_eq!(at(&world, 8, 5).unwrap().velocity, Vector { x: 0, y: 0 });
    assert_eq!(at(&world, 9, 5).unwrap().velocity, Vector { x: 0, y: 0 });
    assert_eq!(at(&world, 10, 5).unwrap().velocity, Vector { x: 0, y: 0 });
    assert!(at(&world, 10, 5).unwrap().paused);
}

#[test]
fn mutate_pair_of_the_world_reaches_two_cells() {
    let mut world = empty_world();
    put(&mut world, 5, 5, moving(SAND_ID, 0, 0));
    {
        let (a, b) = world.mutate_pair(point(5, 5), point(6, 5));
        assert!(a.is_some());
        assert!(b.is_none());
        *b = a.take();
    }
    assert!(at(&world, 5, 5).is_none());
    assert_eq!(at(&world, 6, 5).unwrap().element_id(), SAND_ID);
}

#[test]
fn mutate_neighbors_of_the_world_splits_round_a_tile() {
    let mut world = empty_world();
    put(&mut world, 5, 5, moving(SAND_ID, 0, 0));
    {
        let (center, mut hood) = world.mutate_neighbors(point(5, 5));
        center.velocity.x = 9;
        hood.for_each(|cell| *cell = Some(Tile::stationary(ElementState::default(ElementId(ROCK_ID)), 20)));
    }
    assert_eq!(at(&world, 5, 5).unwrap().velocity.x, 9);
    assert_eq!(at(&world, 5, 5).unwrap().element_id(), SAND_ID);
    for (dx, dy) in [(-1, -1), (0, -1), (1, -1), (-1, 0), (1, 0), (-1, 1), (0, 1), (1, 1)] {
        assert_eq!(at(&world, 5 + dx, 5 + dy).unwrap().element_id(), ROCK_ID);
    }
    assert!(at(&world, 7, 5).is_none());
    assert!(at(&world, 5, 7).is_none());
    assert!(at(&world, 3, 5).is_none());
}

#[test]
fn neighbor_count_of_the_world_counts_tiles() {
    let mut world = empty_world();
    put(&mut world, 5, 5, moving(SAND_ID, 0, 0));
    put(&mut world, 4, 4, moving(WALL_ID, 0, 0));
    put(&mut world, 6, 5, moving(WALL_ID, 0, 0));
    put(&mut world, 5, 6, moving(SAND_ID, 0, 0));
    put(&mut world, 8, 8, moving(WALL_ID, 0, 0));
    assert_eq!(world.neighbor_count(point(5, 5), |_| true), 3);
    assert_eq!(world.neighbor_count(point(5, 5), |tile| tile.has_flag(FIXED)), 2);
    assert_eq!(world.neighbor_count(point(5, 5), |_| false), 0);
    assert_eq!(world.neighbor_count(point(0, 0), |_| true), 0);
}

#[test]
fn a_sleeper_whose_floor_has_gone_wakes_in_the_sleep_pass() {
    let mut world = empty_world();
    let mut sleeper = moving(SAND_ID, 0, 0);
    sleeper.paused = true;
    put(&mut world, 5, 9, sleeper);
    put(&mut world, 5, 8, sleeper);
    put(&mut world, 5, 7, sleeper);
    world.pause_particles();
    // The lowest has no floor; those above it still rest on a sleeper.
    assert!(!at(&world, 5, 9).unwrap().paused);
    assert!(at(&world, 5, 8).unwrap().paused);
    assert!(at(&world, 5, 7).unwrap().paused);
    world.pause_particles();
    assert!(!at(&world, 5, 8).unwrap().paused);
    assert!(at(&world, 5, 7).unwrap().paused);
    world.pause_particles();
    assert!(!at(&world, 5, 7).unwrap().paused);
}

#[test]
fn a_fast_sleeper_wakes_with_its_velocity() {
    let mut world = empty_world();
    let mut sleeper = moving(SAND_ID, 9, 0);
    sleeper.paused = true;
    put(&mut world, 5, 199, sleeper);
    world.pause_particles();
    let woken = at(&world, 5, 199).unwrap();
    assert!(!woken.paused);
    assert_eq!(woken.velocity, Vector { x: 9, y: 0 });
}
