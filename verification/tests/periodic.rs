use falling_sand::bands::{react_in_band, react_in_bands};
use falling_sand::catalog::{
    CONWAY_ID, ELECTRON_ID, GLASS_ID, GLUE_ID, METAL_ID, ROCK_ID, SAND_ID, SNOW_ID, SOLID_GLUE_ID,
    WATER_ID,
};
use falling_sand::element::{ElementId, PeriodicReaction};
use falling_sand::metal::{CHARGED_HEAD, CHARGED_TAIL, NEUTRAL};
use falling_sand::periodic::decay;
use falling_sand::tile::{ElementState, Tile, Vector};
use falling_sand::world::World;
use falling_sand::world_view::CollisionView;
use falling_sand::{point, WORLD_CELLS};

type IdleReaction = fn(Tile, Tile) -> (Option<Tile>, Option<Tile>);
type IdleSideEffect =
    for<'a> fn(Tile, Tile, CollisionView<'a, Option<Tile>>) -> (Option<Tile>, Option<Tile>);

fn calm_world() -> World<IdleReaction, IdleSideEffect> {
    World::new(19)
}

fn with_info(element: u8, info: u8) -> Tile {
    Tile::stationary(ElementState::new(ElementId(element), info), 20)
}

#[test]
fn a_reaction_sees_the_state_of_its_neighbour_from_before_the_pass() {
    // A neutral piece of metal next to a charged one, in both orders of the scan.
    let mut world = calm_world();
    *world.index_mut(point(10, 10)) = Some(with_info(METAL_ID, NEUTRAL));
    *world.index_mut(point(11, 10)) = Some(with_info(METAL_ID, CHARGED_HEAD));
    world.apply_periodic_reactions();
    assert_eq!(world.index(point(10, 10)).unwrap().special_info(), 254);
    assert_eq!(world.index(point(11, 10)).unwrap().special_info(), CHARGED_TAIL);

    let mut world = calm_world();
    *world.index_mut(point(10, 10)) = Some(with_info(METAL_ID, CHARGED_HEAD));
    *world.index_mut(point(11, 10)) = Some(with_info(METAL_ID, NEUTRAL));
    world.apply_periodic_reactions();
    assert_eq!(world.index(point(10, 10)).unwrap().special_info(), CHARGED_TAIL);
    assert_eq!(world.index(point(11, 10)).unwrap().special_info(), 254);
}

#[test]
fn a_charge_travels_along_a_wire_one_cell_a_pass() {
    let mut world = calm_world();
    for x in 10..15 {
        *world.index_mut(point(x, 10)) = Some(with_info(METAL_ID, NEUTRAL));
    }
    *world.index_mut(point(10, 10)) = Some(with_info(METAL_ID, CHARGED_HEAD));
    world.apply_periodic_reactions();
    let infos: Vec<u8> = (10..15)
        .map(|x| world.index(point(x, 10)).unwrap().special_info())
        .collect();
    assert_eq!(infos, vec![2, 254, 1, 1, 1]);
    world.apply_periodic_reactions();
    let infos: Vec<u8> = (10..15)
        .map(|x| world.index(point(x, 10)).unwrap().special_info())
        .collect();
    assert_eq!(infos, vec![1, 2, 253, 1, 1]);
}

#[test]
fn react_at_changes_the_staged_state_only() {
    let mut world = calm_world();
    *world.index_mut(point(10, 10)) = Some(with_info(METAL_ID, CHARGED_HEAD));
    world.react_at(point(10, 10));
    let tile = world.index(point(10, 10)).unwrap();
    assert_eq!(tile.special_info(), CHARGED_HEAD);
    assert_eq!(tile.element_data.staged, ElementState::new(ElementId(METAL_ID), CHARGED_TAIL));
    world.commit_states();
    assert_eq!(world.index(point(10, 10)).unwrap().special_info(), CHARGED_TAIL);
}

#[test]
fn an_inert_tile_and_an_empty_cell_do_not_react() {
    let mut world = calm_world();
    let rock = Tile::new(
        ElementState::new(ElementId(ROCK_ID), 9),
        Vector { x: 1, y: 2 },
        Vector { x: 3, y: 4 },
        55,
    );
    *world.index_mut(point(10, 10)) = Some(rock);
    world.react_at(point(10, 10));
    world.react_at(point(11, 10));
    let after = world.index(point(10, 10)).unwrap();
    assert_eq!(after.special_info(), 9);
    assert_eq!(after.position, Vector { x: 1, y: 2 });
    assert_eq!(after.velocity, Vector { x: 3, y: 4 });
    assert_eq!(after.temperature, 55);
    assert!(world.index(point(11, 10)).is_none());
}

#[test]
fn commit_makes_every_staged_state_visible() {
    let mut world = calm_world();
    let mut tile = with_info(SAND_ID, 5);
    tile.edit_state(ElementId(ROCK_ID), 8);
    *world.index_mut(point(3, 3)) = Some(tile);
    *world.index_mut(point(4, 3)) = Some(with_info(SAND_ID, 6));
    world.commit_states();
    assert!(world.index(point(3, 3)).unwrap().has_state(ElementId(ROCK_ID), 8));
    assert!(world.index(point(4, 3)).unwrap().has_state(ElementId(SAND_ID), 6));
    assert!(world.index(point(5, 3)).is_none());
}

#[test]
fn only_a_roll_of_zero_ages_a_decaying_tile() {
    let melting = PeriodicReaction::DecayInto {
        element_id: ElementId(WATER_ID),
        lifetime: 100,
        rarity: 255,
    };
    let snow = with_info(SNOW_ID, 7);
    for roll in [1, 2, 100, 254] {
        let same = decay(snow, melting, roll).unwrap();
        assert_eq!(same.element_data.staged, ElementState::new(ElementId(SNOW_ID), 7));
        assert_eq!(same.special_info(), 7);
    }
    let older = decay(snow, melting, 0).unwrap();
    assert_eq!(older.special_info(), 7);
    assert_eq!(older.element_data.staged, ElementState::new(ElementId(SNOW_ID), 8));
}

#[test]
fn a_tile_that_has_reached_its_lifetime_turns_into_its_successor() {
    let setting = PeriodicReaction::DecayInto {
        element_id: ElementId(GLUE_ID),
        lifetime: 10,
        rarity: 100,
    };
    let almost = decay(with_info(SOLID_GLUE_ID, 8), setting, 0).unwrap();
    assert_eq!(almost.element_data.staged, ElementState::new(ElementId(SOLID_GLUE_ID), 9));
    let done = decay(with_info(SOLID_GLUE_ID, 9), setting, 0).unwrap();
    assert_eq!(done.element_id(), SOLID_GLUE_ID);
    assert_eq!(done.special_info(), 9);
    assert_eq!(done.element_data.staged, ElementState::default(ElementId(GLUE_ID)));
    let spared = decay(with_info(SOLID_GLUE_ID, 9), setting, 1).unwrap();
    assert_eq!(spared.element_data.staged, ElementState::new(ElementId(SOLID_GLUE_ID), 9));
    let past = decay(with_info(SOLID_GLUE_ID, 10), setting, 0).unwrap();
    assert_eq!(past.element_data.staged, ElementState::new(ElementId(SOLID_GLUE_ID), 11));
    let full = decay(with_info(SOLID_GLUE_ID, 255), setting, 0).unwrap();
    assert_eq!(full.element_data.staged, ElementState::new(ElementId(SOLID_GLUE_ID), 255));
}

#[test]
fn a_tile_that_decays_to_nothing_disappears_at_its_lifetime() {
    let fading = PeriodicReaction::DecayToNothing { lifetime: 8, rarity: 8 };
    let young = decay(with_info(ELECTRON_ID, 3), fading, 0).unwrap();
    assert_eq!(young.element_data.staged, ElementState::new(ElementId(ELECTRON_ID), 4));
    assert!(decay(with_info(ELECTRON_ID, 7), fading, 0).is_none());
    assert!(decay(with_info(ELECTRON_ID, 7), fading, 3).is_some());
    let late = decay(with_info(ELECTRON_ID, 8), fading, 0).unwrap();
    assert_eq!(late.element_data.staged, ElementState::new(ElementId(ELECTRON_ID), 9));
}

#[test]
fn other_reactions_do_not_decay() {
    let tile = with_info(ROCK_ID, 3);
    let same = decay(tile, PeriodicReaction::Inert, 0).unwrap();
    assert_eq!(same.element_data.staged, ElementState::new(ElementId(ROCK_ID), 3));
}

#[test]
fn an_electron_lives_no_longer_than_its_lifetime_allows() {
    let mut world = calm_world();
    *world.index_mut(point(10, 10)) = Some(with_info(ELECTRON_ID, 1));
    let mut passes = 0;
    while world.index(point(10, 10)).is_some() {
        let before = world.index(point(10, 10)).unwrap().special_info();
        world.apply_periodic_reactions();
        passes += 1;
        if let Some(tile) = world.index(point(10, 10)) {
            let after = tile.special_info();
            assert!(after == before || after == before + 1);
            assert!(after < 8);
        }
        assert!(passes < 100_000);
    }
    assert!(passes >= 8);
}

#[test]
fn after_a_pass_nothing_is_left_staged() {
    let mut world = calm_world();
    for x in 10..30 {
        *world.index_mut(point(x, 10)) = Some(with_info(METAL_ID, (x as u8) * 7));
        *world.index_mut(point(x, 11)) = Some(with_info(SNOW_ID, 5));
    }
    world.apply_periodic_reactions();
    for x in 10..30 {
        for y in 10..12 {
            if let Some(tile) = world.index(point(x, y)) {
                assert_eq!(tile.element_data.current, tile.element_data.staged);
            }
        }
    }
}

fn busy_world() -> World<IdleReaction, IdleSideEffect> {
    let mut world = calm_world();
    // A wire with a charge on it, across several bands.
    for y in 3..40 {
        *world.index_mut(point(20, y)) = Some(with_info(METAL_ID, NEUTRAL));
    }
    *world.index_mut(point(20, 3)) = Some(with_info(METAL_ID, CHARGED_HEAD));
    *world.index_mut(point(20, 21)) = Some(with_info(METAL_ID, 77));
    // A block of glass.
    for x in 50..60 {
        for y in 50..60 {
            *world.index_mut(point(x, y)) = Some(with_info(GLASS_ID, 1));
        }
    }
    // A blinker of the game of life next to neutral metal.
    for x in 100..103 {
        *world.index_mut(point(x, 100)) = Some(with_info(CONWAY_ID, 2));
    }
    for y in 99..102 {
        *world.index_mut(point(104, y)) = Some(with_info(CONWAY_ID, 1));
    }
    *world.index_mut(point(101, 101)) = Some(with_info(METAL_ID, NEUTRAL));
    // Cold sand.
    *world.index_mut(point(151, 150)) = Some(with_info(SAND_ID, 4));
    world
}

#[test]
fn a_pass_in_bands_agrees_with_a_pass_over_the_whole_grid() {
    for band_rows in [4usize, 5, 8, 10, 25, 50, 100, 200] {
        let mut whole = busy_world();
        let mut banded = busy_world();
        for _ in 0..3 {
            whole.apply_periodic_reactions();
            react_in_bands(&mut banded, band_rows);
            for i in 0..WORLD_CELLS {
                assert_eq!(whole.index(i), banded.index(i));
            }
        }
        assert_eq!(banded.index(point(151, 150)).unwrap().element_id(), SAND_ID);
        assert_eq!(banded.index(point(20, 6)).unwrap().special_info(), 252);
    }
}

#[test]
fn a_pass_in_bands_sets_hot_sand_alight_as_a_pass_over_the_whole_grid_does() {
    for band_rows in [4usize, 7, 50, 200] {
        let mut whole = calm_world();
        let mut banded = calm_world();
        for world in [&mut whole, &mut banded] {
            *world.index_mut(point(150, 150)) = Some(Tile::stationary(
                ElementState::default(ElementId(SAND_ID)),
                500,
            ));
        }
        whole.apply_periodic_reactions();
        react_in_bands(&mut banded, band_rows);
        assert_eq!(banded.index(point(150, 150)).unwrap().element_id(), 4);
        assert_eq!(whole.index(point(150, 150)), banded.index(point(150, 150)));
    }
}

#[test]
fn a_band_takes_its_turns_row_by_row_from_the_left() {
    // Charge runs along a wire from its head: the cell to the right of the
    // head takes its turn after the head and sees it as it was before the
    // pass, so the charge advances by one cell in a pass, in a band as in
    // the whole grid.
    let mut world = calm_world();
    for x in 10..20 {
        *world.index_mut(point(x, 4)) = Some(with_info(METAL_ID, NEUTRAL));
    }
    *world.index_mut(point(10, 4)) = Some(with_info(METAL_ID, CHARGED_HEAD));
    react_in_band(&mut world, 2, 5, 1, 4);
    let staged = |world: &World<IdleReaction, IdleSideEffect>, x: i32| {
        world.index(point(x, 4)).unwrap().element_data.staged
    };
    assert_eq!(staged(&world, 10), ElementState::new(ElementId(METAL_ID), CHARGED_TAIL));
    assert_eq!(staged(&world, 11), ElementState::new(ElementId(METAL_ID), 254));
    assert_eq!(staged(&world, 12), ElementState::new(ElementId(METAL_ID), NEUTRAL));
    // Nothing is committed by a band alone.
    assert_eq!(world.index(point(11, 4)).unwrap().special_info(), NEUTRAL);
}

#[test]
fn a_band_lets_its_inner_rows_react() {
    let mut world = calm_world();
    for y in 0..8 {
        *world.index_mut(point(10, y)) = Some(with_info(METAL_ID, 50));
        *world.index_mut(point(0, y)) = Some(with_info(METAL_ID, 50));
    }
    react_in_band(&mut world, 2, 4, 1, 3);
    for y in 0..8 {
        let staged = world.index(point(10, y)).unwrap().element_data.staged;
        let expected = if y == 3 || y == 4 { CHARGED_TAIL } else { 50 };
        assert_eq!(staged, ElementState::new(ElementId(METAL_ID), expected));
        let at_the_edge = world.index(point(0, y)).unwrap().element_data.staged;
        assert_eq!(at_the_edge, ElementState::new(ElementId(METAL_ID), 50));
    }
}
