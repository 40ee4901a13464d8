use std::cell::RefCell;
use std::rc::Rc;

use falling_sand::catalog::{
    FIRE_ID, GLUE_ID, ROCK_ID, SAND_ID, SNOW_ID, SOLID_GLUE_ID, WALL_ID, WATER_ID,
};
use falling_sand::element::{ElementId, FIXED, GRAVITY};
use falling_sand::fire::fire;
use falling_sand::glue::{glue, stick, GlueSetup};
use falling_sand::simple_elements::{rock, sand, wall};
use falling_sand::snow::{melt, snow, SnowSetup};
use falling_sand::tile::{ElementState, Tile, Vector};
use falling_sand::water::water;
use falling_sand::world::{RegistrationError, World};
use falling_sand::world_view::CollisionView;
use falling_sand::point;

type BoxedReaction = Box<dyn Fn(Tile, Tile) -> (Option<Tile>, Option<Tile>)>;
type BoxedSideEffect =
    Box<dyn for<'a> Fn(Tile, Tile, CollisionView<'a, Option<Tile>>) -> (Option<Tile>, Option<Tile>)>;
type PlainReaction = fn(Tile, Tile) -> (Option<Tile>, Option<Tile>);
type PlainSideEffect =
    for<'a> fn(Tile, Tile, CollisionView<'a, Option<Tile>>) -> (Option<Tile>, Option<Tile>);

fn resting(element: u8) -> Tile {
    Tile::stationary(ElementState::default(ElementId(element)), 20)
}

fn recorder(log: &Rc<RefCell<Vec<(u8, u8)>>>) -> BoxedReaction {
    let log = Rc::clone(log);
    Box::new(move |first: Tile, second: Tile| {
        log.borrow_mut().push((first.element_id(), second.element_id()));
        (Some(first), None)
    })
}

#[test]
fn a_registered_reaction_runs_once_with_the_lower_element_first() {
    let log = Rc::new(RefCell::new(Vec::new()));
    let mut world: World<BoxedReaction, BoxedSideEffect> = World::new(19);
    world.register_collision_reaction(&sand(), &water(), recorder(&log));
    assert!(world.has_collision_reaction(SAND_ID, WATER_ID));
    assert!(!world.has_collision_reaction(WATER_ID, SAND_ID));

    *world.index_mut(point(5, 5)) = Some(resting(SAND_ID));
    *world.index_mut(point(6, 5)) = Some(resting(WATER_ID));
    assert!(world.trigger_collision_effects(point(5, 5), point(6, 5)));
    assert_eq!(*log.borrow(), vec![(SAND_ID, WATER_ID)]);
    assert_eq!(world.index(point(5, 5)).unwrap().element_id(), SAND_ID);
    assert!(world.index(point(6, 5)).is_none());
}

#[test]
fn the_spatial_order_of_a_collision_does_not_change_the_order_of_the_arguments() {
    let log = Rc::new(RefCell::new(Vec::new()));
    let mut world: World<BoxedReaction, BoxedSideEffect> = World::new(19);
    world.register_collision_reaction(&sand(), &water(), recorder(&log));

    *world.index_mut(point(5, 5)) = Some(resting(SAND_ID));
    *world.index_mut(point(6, 5)) = Some(resting(WATER_ID));
    // The water is the source this time.
    assert!(world.trigger_collision_effects(point(6, 5), point(5, 5)));
    assert_eq!(*log.borrow(), vec![(SAND_ID, WATER_ID)]);
    assert_eq!(world.index(point(5, 5)).unwrap().element_id(), SAND_ID);
    assert!(world.index(point(6, 5)).is_none());
}

#[test]
fn of_two_tiles_of_one_element_the_source_comes_first() {
    let mut world: World<BoxedReaction, BoxedSideEffect> = World::new(19);
    world.register_collision_reaction(
        &sand(),
        &sand(),
        Box::new(|first: Tile, _second: Tile| (Some(first), None)),
    );
    let mut marked = resting(SAND_ID);
    marked.temperature = 99;
    *world.index_mut(point(5, 5)) = Some(resting(SAND_ID));
    *world.index_mut(point(6, 5)) = Some(marked);
    assert!(world.trigger_collision_effects(point(6, 5), point(5, 5)));
    assert_eq!(world.index(point(6, 5)).unwrap().temperature, 99);
    assert!(world.index(point(5, 5)).is_none());
}

#[test]
fn a_collision_without_a_rule_changes_nothing() {
    let log = Rc::new(RefCell::new(Vec::new()));
    let mut world: World<BoxedReaction, BoxedSideEffect> = World::new(19);
    world.register_collision_reaction(&sand(), &water(), recorder(&log));
    *world.index_mut(point(5, 5)) = Some(resting(SAND_ID));
    *world.index_mut(point(6, 5)) = Some(resting(ROCK_ID));
    assert!(!world.trigger_collision_effects(point(5, 5), point(6, 5)));
    assert!(log.borrow().is_empty());
    assert_eq!(world.index(point(5, 5)).unwrap().element_id(), SAND_ID);
    assert_eq!(world.index(point(6, 5)).unwrap().element_id(), ROCK_ID);
}

#[test]
fn a_side_effect_comes_before_a_reaction() {
    let log = Rc::new(RefCell::new(Vec::new()));
    let mut world: World<BoxedReaction, BoxedSideEffect> = World::new(19);
    world.register_collision_reaction(&sand(), &water(), recorder(&log));
    world.register_collision_side_effect(
        &sand(),
        &water(),
        Box::new(|first: Tile, second: Tile, mut view: CollisionView<'_, Option<Tile>>| {
            let spot = falling_sand::world_view::NeighborhoodIndex::new(view.first_index + 200);
            *view.index_mut(spot) = Some(Tile::stationary(
                ElementState::default(ElementId(ROCK_ID)),
                20,
            ));
            (None, Some(second.clone()).map(|mut tile| {
                tile.temperature = first.temperature + 1;
                tile
            }))
        }),
    );
    assert!(world.has_collision_side_effect(SAND_ID, WATER_ID));
    *world.index_mut(point(5, 5)) = Some(resting(SAND_ID));
    *world.index_mut(point(6, 5)) = Some(resting(WATER_ID));
    assert!(world.trigger_collision_effects(point(6, 5), point(5, 5)));
    assert!(log.borrow().is_empty());
    assert!(world.index(point(5, 5)).is_none());
    assert_eq!(world.index(point(6, 5)).unwrap().temperature, 21);
    assert_eq!(world.index(point(5, 6)).unwrap().element_id(), ROCK_ID);
}

#[test]
fn what_a_reaction_returns_is_committed() {
    let mut world: World<PlainReaction, PlainSideEffect> = World::new(19);
    SnowSetup.register_reactions(&mut world, melt);
    assert!(world.has_collision_reaction(FIRE_ID, SNOW_ID));
    *world.index_mut(point(5, 5)) = Some(resting(SNOW_ID));
    *world.index_mut(point(5, 6)) = Some(resting(FIRE_ID));
    assert!(world.trigger_collision_effects(point(5, 5), point(5, 6)));
    assert_eq!(world.index(point(5, 5)).unwrap().element_id(), WATER_ID);
    assert_eq!(world.index(point(5, 6)).unwrap().element_id(), FIRE_ID);
}

#[test]
fn a_reaction_by_flags_meets_every_element_with_the_flags() {
    let mut world: World<PlainReaction, PlainSideEffect> = World::new(19);
    GlueSetup.register_reactions(&mut world, stick);
    let mut drop = resting(GLUE_ID);
    drop.velocity = Vector { x: 4, y: 9 };
    *world.index_mut(point(5, 5)) = Some(drop);
    *world.index_mut(point(5, 6)) = Some(resting(WALL_ID));
    assert!(world.trigger_collision_effects(point(5, 5), point(5, 6)));
    let stuck = world.index(point(5, 5)).unwrap();
    assert!(stuck.velocity.is_zero());
    // What a reaction by flags returns is stored as it is: the change is staged.
    assert_eq!(stuck.element_id(), GLUE_ID);
    let mut seen = stuck;
    seen.save_state();
    assert_eq!(seen.element_id(), SOLID_GLUE_ID);
    assert_eq!(world.index(point(5, 6)).unwrap().element_id(), WALL_ID);

    // Glue does not react with what is not fixed.
    *world.index_mut(point(9, 5)) = Some(drop);
    *world.index_mut(point(9, 6)) = Some(resting(SAND_ID));
    assert!(!world.trigger_collision_effects(point(9, 5), point(9, 6)));
    assert_eq!(world.index(point(9, 5)).unwrap().velocity, Vector { x: 4, y: 9 });
}

#[test]
fn a_reaction_by_flags_works_in_both_orders_of_the_elements() {
    // Rock (1) reacts with everything that feels gravity; sand (2) is above it,
    // the wall (0) below it in the order of elements, and only sand feels gravity.
    let mut world: World<BoxedReaction, BoxedSideEffect> = World::new(19);
    world.register_flag_collision_reaction(
        &rock(),
        GRAVITY,
        Box::new(|rock_tile: Tile, _other: Tile| (Some(rock_tile), None)),
    );
    *world.index_mut(point(5, 5)) = Some(resting(SAND_ID));
    *world.index_mut(point(5, 6)) = Some(resting(ROCK_ID));
    assert!(world.trigger_collision_effects(point(5, 5), point(5, 6)));
    assert!(world.index(point(5, 5)).is_none());
    assert_eq!(world.index(point(5, 6)).unwrap().element_id(), ROCK_ID);

    *world.index_mut(point(8, 5)) = Some(resting(WALL_ID));
    *world.index_mut(point(8, 6)) = Some(resting(ROCK_ID));
    assert!(!world.trigger_collision_effects(point(8, 5), point(8, 6)));
    assert!(world.index(point(8, 5)).is_some());

    // Rock meets rock: the rock's own flags hold gravity.
    *world.index_mut(point(11, 5)) = Some(resting(ROCK_ID));
    *world.index_mut(point(11, 6)) = Some(resting(ROCK_ID));
    assert!(world.trigger_collision_effects(point(11, 5), point(11, 6)));
}

#[test]
fn registration_can_be_asked_about_before_it_is_made() {
    let mut world: World<PlainReaction, PlainSideEffect> = World::new(19);
    assert!(!world.has_collision_reaction(FIRE_ID, SNOW_ID));
    world.register_collision_reaction(&fire(), &snow(), melt);
    assert!(world.has_collision_reaction(FIRE_ID, SNOW_ID));
    assert!(!world.has_collision_reaction(SNOW_ID, FIRE_ID));
    assert!(!world.has_collision_side_effect(FIRE_ID, SNOW_ID));
    assert_eq!(glue().id, GLUE_ID);
    assert_eq!(wall().flags, FIXED);
}

#[test]
fn a_second_reaction_for_a_pair_is_refused_and_the_first_stays() {
    let first_log = Rc::new(RefCell::new(Vec::new()));
    let second_log = Rc::new(RefCell::new(Vec::new()));
    let mut world: World<BoxedReaction, BoxedSideEffect> = World::new(19);
    assert_eq!(
        world.try_register_collision_reaction(&sand(), &water(), recorder(&first_log)),
        Ok(())
    );
    assert_eq!(
        world.try_register_collision_reaction(&sand(), &water(), recorder(&second_log)),
        Err(RegistrationError::Taken)
    );
    assert!(world.has_collision_reaction(SAND_ID, WATER_ID));

    *world.index_mut(point(5, 5)) = Some(resting(WATER_ID));
    *world.index_mut(point(6, 5)) = Some(resting(SAND_ID));
    assert!(world.trigger_collision_effects(point(5, 5), point(6, 5)));
    assert_eq!(*first_log.borrow(), vec![(SAND_ID, WATER_ID)]);
    assert!(second_log.borrow().is_empty());
}

#[test]
fn a_pair_in_descending_order_is_refused() {
    let log = Rc::new(RefCell::new(Vec::new()));
    let mut world: World<BoxedReaction, BoxedSideEffect> = World::new(19);
    assert_eq!(
        world.try_register_collision_reaction(&water(), &sand(), recorder(&log)),
        Err(RegistrationError::OutOfOrder)
    );
    assert!(!world.has_collision_reaction(SAND_ID, WATER_ID));
    assert!(!world.has_collision_reaction(WATER_ID, SAND_ID));
    // A pair of one element is in order.
    assert_eq!(
        world.try_register_collision_reaction(&sand(), &sand(), recorder(&log)),
        Ok(())
    );
    assert!(world.has_collision_reaction(SAND_ID, SAND_ID));
}

#[test]
fn a_second_side_effect_for_a_pair_is_refused() {
    fn keep<'a>(
        first: Tile,
        second: Tile,
        _view: CollisionView<'a, Option<Tile>>,
    ) -> (Option<Tile>, Option<Tile>) {
        (Some(first), Some(second))
    }
    fn clear<'a>(
        _first: Tile,
        _second: Tile,
        _view: CollisionView<'a, Option<Tile>>,
    ) -> (Option<Tile>, Option<Tile>) {
        (None, None)
    }
    let mut world: World<PlainReaction, PlainSideEffect> = World::new(19);
    assert_eq!(world.try_register_collision_side_effect(&sand(), &water(), keep), Ok(()));
    assert_eq!(
        world.try_register_collision_side_effect(&sand(), &water(), clear),
        Err(RegistrationError::Taken)
    );
    assert_eq!(
        world.try_register_collision_side_effect(&water(), &sand(), clear),
        Err(RegistrationError::OutOfOrder)
    );
    *world.index_mut(point(5, 5)) = Some(resting(SAND_ID));
    *world.index_mut(point(6, 5)) = Some(resting(WATER_ID));
    assert!(world.trigger_collision_effects(point(5, 5), point(6, 5)));
    assert!(world.index(point(5, 5)).is_some());
    assert!(world.index(point(6, 5)).is_some());
}
