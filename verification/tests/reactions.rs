use falling_sand::catalog::{
    ASH_ID, CONWAY_ID, DIRT_ID, FIRE_ID, GAS_ID, GLASS_ID, LAVA_ID, LIQUID_METAL_ID, METAL_ID,
    OIL_ID, ROCK_ID, SAND_ID, SNOW_ID, STEAM_ID, WALL_ID, WATER_ID,
};
use falling_sand::conway::{conway_reaction, ALIVE, DEAD};
use falling_sand::dirt::{dirt_moisture, dirt_reaction, soak};
use falling_sand::element::{ElementId, PeriodicHook};
use falling_sand::eraser::{eraser_reaction, ERASER_ID};
use falling_sand::fire::{
    burn_sand, douse, fire_reaction, fire_step, BURNS_CLEAN, MAKES_ASH, MAKES_WATER,
};
use falling_sand::gas::explode;
use falling_sand::glass::{glass_reaction, GLASS_EDGE, GLASS_INNER};
use falling_sand::lava::{lava_reaction, lava_step};
use falling_sand::metal::{
    charge_metal, liquid_metal_reaction, metal_reaction, CHARGED_HEAD, CHARGED_TAIL, NEUTRAL,
};
use falling_sand::oil::{oil_reaction, oil_step};
use falling_sand::periodic::run_hook;
use falling_sand::simple_elements::sand_reaction;
use falling_sand::tile::{ElementState, Tile, Vector};
use falling_sand::water::{steam_reaction, steam_step, water_reaction, water_step};
use falling_sand::world_view::{CollisionView, NeighborhoodView};

const ROW: usize = 200;
const CENTER: usize = 5 * ROW + 5;

fn field() -> Vec<Option<Tile>> {
    vec![None; 12 * ROW]
}

fn made(element: u8, info: u8, temperature: i16) -> Tile {
    Tile::stationary(ElementState::new(ElementId(element), info), temperature)
}

fn staged_of(tile: &Tile) -> ElementState {
    tile.element_data.staged
}

fn around(center: usize) -> [usize; 8] {
    [
        center - ROW - 1,
        center - 1,
        center + ROW - 1,
        center - ROW,
        center + ROW,
        center - ROW + 1,
        center + 1,
        center + ROW + 1,
    ]
}

#[test]
fn hot_sand_catches_fire() {
    let mut cells = field();
    let cool = sand_reaction(made(SAND_ID, 1, 100), NeighborhoodView::new(&mut cells, CENTER)).unwrap();
    assert_eq!(staged_of(&cool), ElementState::new(ElementId(SAND_ID), 1));
    assert_eq!(cool.temperature, 100);
    let hot = sand_reaction(made(SAND_ID, 1, 101), NeighborhoodView::new(&mut cells, CENTER)).unwrap();
    assert_eq!(staged_of(&hot), ElementState::new(ElementId(FIRE_ID), MAKES_ASH));
    assert_eq!(hot.temperature, 300);
    assert_eq!(hot.element_id(), SAND_ID);
    assert!(cells.iter().all(|cell| cell.is_none()));
}

#[test]
fn water_boils_freezes_or_jiggles() {
    let steam = water_step(made(WATER_ID, 1, 101), 3);
    assert_eq!(staged_of(&steam), ElementState::default(ElementId(STEAM_ID)));
    assert!(steam.velocity.is_zero());
    let snow = water_step(made(WATER_ID, 1, -1), 3);
    assert_eq!(staged_of(&snow), ElementState::default(ElementId(SNOW_ID)));
    let mut liquid = made(WATER_ID, 1, 100);
    liquid.velocity = Vector { x: 10, y: 4 };
    assert_eq!(water_step(liquid, 3).velocity, Vector { x: 13, y: 4 });
    assert_eq!(water_step(liquid, -3).velocity, Vector { x: 7, y: 4 });
    liquid.velocity.x = 126;
    assert_eq!(water_step(liquid, 3).velocity.x, 127);
    liquid.temperature = 0;
    liquid.velocity.x = -127;
    assert_eq!(water_step(liquid, -3).velocity.x, -128);
}

#[test]
fn the_jiggle_of_water_is_small_and_varies() {
    let mut cells = field();
    let mut seen = [false; 7];
    for _ in 0..500 {
        let out = water_reaction(made(WATER_ID, 1, 50), NeighborhoodView::new(&mut cells, CENTER));
        let vx = out.unwrap().velocity.x;
        assert!((-3..=3).contains(&vx));
        seen[(vx + 3) as usize] = true;
    }
    assert!(seen.iter().filter(|&&hit| hit).count() >= 2);
}

#[test]
fn steam_condenses_or_jiggles_when_it_idles() {
    let water = steam_step(made(STEAM_ID, 1, 98), 3, 3);
    assert_eq!(staged_of(&water), ElementState::default(ElementId(WATER_ID)));
    assert!(water.velocity.is_zero());
    let mut steam = made(STEAM_ID, 1, 99);
    steam.velocity = Vector { x: 1, y: -1 };
    assert_eq!(steam_step(steam, 3, -2).velocity, Vector { x: 4, y: -3 });
    steam.velocity = Vector { x: 2, y: 0 };
    assert_eq!(steam_step(steam, 3, -2).velocity, Vector { x: 2, y: 0 });
    let mut cells = field();
    let out = steam_reaction(steam, NeighborhoodView::new(&mut cells, CENTER)).unwrap();
    assert_eq!(out.velocity, Vector { x: 2, y: 0 });
}

#[test]
fn fire_burns_on_goes_out_or_leaves_its_residue() {
    let hot = made(FIRE_ID, MAKES_ASH, 300);
    assert_eq!(staged_of(&fire_step(hot, false, true).unwrap()), staged_of(&hot));
    assert!(fire_step(hot, true, false).is_none());
    let ash = fire_step(hot, true, true).unwrap();
    assert_eq!(staged_of(&ash), ElementState::default(ElementId(ASH_ID)));
    let cold = made(FIRE_ID, MAKES_WATER, 299);
    assert!(fire_step(cold, false, false).is_none());
    let water = fire_step(cold, false, true).unwrap();
    assert_eq!(staged_of(&water), ElementState::default(ElementId(WATER_ID)));
    let clean = made(FIRE_ID, BURNS_CLEAN, 10);
    let same = fire_step(clean, false, true).unwrap();
    assert_eq!(staged_of(&same), ElementState::new(ElementId(FIRE_ID), BURNS_CLEAN));
}

#[test]
fn a_cold_fire_ends_one_way_or_the_other() {
    let mut cells = field();
    let mut gone = 0;
    let mut ashes = 0;
    for _ in 0..300 {
        match fire_reaction(made(FIRE_ID, MAKES_ASH, 20), NeighborhoodView::new(&mut cells, CENTER)) {
            None => gone += 1,
            Some(tile) => {
                assert_eq!(staged_of(&tile), ElementState::default(ElementId(ASH_ID)));
                ashes += 1;
            }
        }
    }
    assert!(gone > 0);
    assert!(ashes > 0);
}

#[test]
fn metal_passes_a_charge_on() {
    let mut cells = field();
    cells[CENTER + 1] = Some(made(METAL_ID, CHARGED_HEAD, 20));
    let taken = metal_reaction(made(METAL_ID, NEUTRAL, 20), NeighborhoodView::new(&mut cells, CENTER)).unwrap();
    assert_eq!(staged_of(&taken), ElementState::new(ElementId(METAL_ID), 254));
    // Two charges next to it, the weaker of which is more than a tail.
    cells[CENTER - 1] = Some(made(METAL_ID, 10, 20));
    let weaker = metal_reaction(made(METAL_ID, NEUTRAL, 20), NeighborhoodView::new(&mut cells, CENTER)).unwrap();
    assert_eq!(staged_of(&weaker), ElementState::new(ElementId(METAL_ID), 9));
    // Two charges of which the weaker leaves no more than a tail.
    cells[CENTER - 1] = Some(made(METAL_ID, 3, 20));
    let blocked = metal_reaction(made(METAL_ID, NEUTRAL, 20), NeighborhoodView::new(&mut cells, CENTER)).unwrap();
    assert_eq!(staged_of(&blocked), ElementState::new(ElementId(METAL_ID), NEUTRAL));
    // Three charges.
    cells[CENTER - 1] = Some(made(METAL_ID, 10, 20));
    cells[CENTER - ROW] = Some(made(METAL_ID, 10, 20));
    let crowded = metal_reaction(made(METAL_ID, NEUTRAL, 20), NeighborhoodView::new(&mut cells, CENTER)).unwrap();
    assert_eq!(staged_of(&crowded), ElementState::new(ElementId(METAL_ID), NEUTRAL));
    // A charge becomes a tail, a tail becomes neutral.
    let tail = metal_reaction(made(METAL_ID, 77, 20), NeighborhoodView::new(&mut cells, CENTER)).unwrap();
    assert_eq!(staged_of(&tail), ElementState::new(ElementId(METAL_ID), CHARGED_TAIL));
    let neutral = metal_reaction(made(METAL_ID, CHARGED_TAIL, 20), NeighborhoodView::new(&mut cells, CENTER)).unwrap();
    assert_eq!(staged_of(&neutral), ElementState::new(ElementId(METAL_ID), NEUTRAL));
    // Sand with a high info is no charge.
    let mut cells = field();
    cells[CENTER + 1] = Some(made(SAND_ID, 200, 20));
    let alone = metal_reaction(made(METAL_ID, NEUTRAL, 20), NeighborhoodView::new(&mut cells, CENTER)).unwrap();
    assert_eq!(staged_of(&alone), ElementState::new(ElementId(METAL_ID), NEUTRAL));
}

#[test]
fn metal_melts_and_sets() {
    let mut cells = field();
    let melting = metal_reaction(made(METAL_ID, NEUTRAL, 1501), NeighborhoodView::new(&mut cells, CENTER)).unwrap();
    assert_eq!(staged_of(&melting), ElementState::default(ElementId(LIQUID_METAL_ID)));
    let solid = metal_reaction(made(METAL_ID, NEUTRAL, 1500), NeighborhoodView::new(&mut cells, CENTER)).unwrap();
    assert_eq!(staged_of(&solid), ElementState::new(ElementId(METAL_ID), NEUTRAL));
    let setting = liquid_metal_reaction(made(LIQUID_METAL_ID, 1, 1498), NeighborhoodView::new(&mut cells, CENTER)).unwrap();
    assert_eq!(staged_of(&setting), ElementState::default(ElementId(METAL_ID)));
    let liquid = liquid_metal_reaction(made(LIQUID_METAL_ID, 1, 1499), NeighborhoodView::new(&mut cells, CENTER)).unwrap();
    assert_eq!(staged_of(&liquid), ElementState::default(ElementId(LIQUID_METAL_ID)));
}

#[test]
fn metal_at_the_edge_of_the_buffer_sees_no_charge() {
    let mut cells = field();
    cells[1] = Some(made(METAL_ID, CHARGED_HEAD, 20));
    let edge = metal_reaction(made(METAL_ID, NEUTRAL, 20), NeighborhoodView::new(&mut cells, 0)).unwrap();
    assert_eq!(staged_of(&edge), ElementState::new(ElementId(METAL_ID), NEUTRAL));
}

#[test]
fn glass_knows_whether_it_is_enclosed() {
    let mut cells = field();
    for cell in around(CENTER) {
        cells[cell] = Some(made(GLASS_ID, 1, 20));
    }
    let inner = glass_reaction(made(GLASS_ID, 1, 20), NeighborhoodView::new(&mut cells, CENTER)).unwrap();
    assert_eq!(staged_of(&inner), ElementState::new(ElementId(GLASS_ID), GLASS_INNER));
    cells[CENTER + ROW + 1] = None;
    let edge = glass_reaction(made(GLASS_ID, 2, 20), NeighborhoodView::new(&mut cells, CENTER)).unwrap();
    assert_eq!(staged_of(&edge), ElementState::new(ElementId(GLASS_ID), GLASS_EDGE));
    cells[CENTER + ROW + 1] = Some(made(SAND_ID, 1, 20));
    let beside_sand = glass_reaction(made(GLASS_ID, 2, 20), NeighborhoodView::new(&mut cells, CENTER)).unwrap();
    assert_eq!(staged_of(&beside_sand), ElementState::new(ElementId(GLASS_ID), GLASS_EDGE));
}

#[test]
fn a_cell_of_the_game_lives_and_dies_by_its_neighbours() {
    let count = |alive: usize, own: u8| {
        let mut cells = field();
        for &cell in around(CENTER).iter().take(alive) {
            cells[cell] = Some(made(CONWAY_ID, ALIVE, 20));
        }
        let out = conway_reaction(made(CONWAY_ID, own, 20), NeighborhoodView::new(&mut cells, CENTER)).unwrap();
        staged_of(&out).special_info.as_u8()
    };
    assert_eq!(count(3, DEAD), ALIVE);
    assert_eq!(count(3, ALIVE), ALIVE);
    assert_eq!(count(2, ALIVE), ALIVE);
    assert_eq!(count(2, DEAD), DEAD);
    assert_eq!(count(1, ALIVE), DEAD);
    assert_eq!(count(0, ALIVE), DEAD);
    assert_eq!(count(4, ALIVE), DEAD);
    assert_eq!(count(4, DEAD), DEAD);
    assert_eq!(count(8, ALIVE), DEAD);
}

#[test]
fn charged_metal_brings_a_cell_of_the_game_to_life() {
    let mut cells = field();
    cells[CENTER - 1] = Some(made(METAL_ID, CHARGED_HEAD, 20));
    let out = conway_reaction(made(CONWAY_ID, DEAD, 20), NeighborhoodView::new(&mut cells, CENTER)).unwrap();
    assert_eq!(staged_of(&out), ElementState::new(ElementId(CONWAY_ID), ALIVE));
}

#[test]
fn a_cell_that_dies_of_overcrowding_charges_the_metal_round_it() {
    let mut cells = field();
    for &cell in around(CENTER).iter().take(4) {
        cells[cell] = Some(made(CONWAY_ID, ALIVE, 20));
    }
    cells[CENTER + 1] = Some(made(METAL_ID, NEUTRAL, 20));
    cells[CENTER + ROW + 1] = Some(made(METAL_ID, CHARGED_TAIL, 20));
    cells[CENTER + 2] = Some(made(METAL_ID, NEUTRAL, 20));
    let out = conway_reaction(made(CONWAY_ID, ALIVE, 20), NeighborhoodView::new(&mut cells, CENTER)).unwrap();
    assert_eq!(staged_of(&out), ElementState::new(ElementId(CONWAY_ID), DEAD));
    let shocked = cells[CENTER + 1].unwrap();
    assert_eq!(shocked.special_info(), NEUTRAL);
    assert_eq!(staged_of(&shocked), ElementState::new(ElementId(METAL_ID), CHARGED_HEAD));
    assert_eq!(staged_of(&cells[CENTER + ROW + 1].unwrap()).special_info.as_u8(), CHARGED_TAIL);
    assert_eq!(staged_of(&cells[CENTER + 2].unwrap()).special_info.as_u8(), NEUTRAL);
}

#[test]
fn dirt_draws_moisture_from_wetter_neighbours() {
    assert_eq!(dirt_moisture(&made(DIRT_ID, 77, 20)), 77);
    assert_eq!(dirt_moisture(&made(SAND_ID, 77, 20)), 0);
    let mut cells = field();
    cells[CENTER - 1] = Some(made(DIRT_ID, 16, 20));
    cells[CENTER + 1] = Some(made(DIRT_ID, 15, 20));
    cells[CENTER + ROW] = Some(made(DIRT_ID, 100, 20));
    cells[CENTER - ROW] = Some(made(SAND_ID, 100, 20));
    let out = dirt_reaction(made(DIRT_ID, 10, 20), NeighborhoodView::new(&mut cells, CENTER)).unwrap();
    assert_eq!(out.special_info(), 10);
    assert_eq!(staged_of(&out), ElementState::new(ElementId(DIRT_ID), 12));
    assert_eq!(staged_of(&cells[CENTER - 1].unwrap()).special_info.as_u8(), 15);
    assert_eq!(staged_of(&cells[CENTER + 1].unwrap()).special_info.as_u8(), 15);
    assert_eq!(staged_of(&cells[CENTER + ROW].unwrap()).special_info.as_u8(), 99);
    assert_eq!(staged_of(&cells[CENTER - ROW].unwrap()).special_info.as_u8(), 100);
    assert_eq!(cells[CENTER - 1].unwrap().special_info(), 16);
}

#[test]
fn dirt_soaks_up_water_until_it_is_soaked() {
    let (water, dirt) = soak(made(WATER_ID, 1, 20), made(DIRT_ID, 192, 20));
    assert!(water.is_none());
    assert_eq!(staged_of(&dirt.unwrap()), ElementState::new(ElementId(DIRT_ID), 255));
    let (water, dirt) = soak(made(WATER_ID, 1, 20), made(DIRT_ID, 1, 20));
    assert!(water.is_none());
    assert_eq!(staged_of(&dirt.unwrap()), ElementState::new(ElementId(DIRT_ID), 65));
    let (water, dirt) = soak(made(WATER_ID, 1, 20), made(DIRT_ID, 193, 20));
    assert!(water.is_some());
    assert_eq!(staged_of(&dirt.unwrap()), ElementState::new(ElementId(DIRT_ID), 193));
}

#[test]
fn the_eraser_clears_all_but_walls_and_then_itself() {
    let mut cells = field();
    for cell in around(CENTER) {
        cells[cell] = Some(made(SAND_ID, 1, 20));
    }
    cells[CENTER - 1] = Some(made(WALL_ID, 1, 20));
    cells[CENTER + 2] = Some(made(SAND_ID, 1, 20));
    cells[CENTER] = Some(made(ERASER_ID, 1, 20));
    let out = eraser_reaction(made(ERASER_ID, 1, 20), NeighborhoodView::new(&mut cells, CENTER));
    assert!(out.is_none());
    for cell in around(CENTER) {
        if cell == CENTER - 1 {
            assert_eq!(cells[cell].unwrap().element_id(), WALL_ID);
        } else {
            assert!(cells[cell].is_none());
        }
    }
    assert!(cells[CENTER + 2].is_some());
    assert!(cells[CENTER].is_some());
}

#[test]
fn lava_throws_sparks_into_empty_cells_only() {
    let mut lava = made(LAVA_ID, 1, 700);
    lava.velocity = Vector { x: 120, y: -120 };
    let mut cells = field();
    cells[CENTER - 1] = Some(made(ROCK_ID, 5, 20));
    let mut sparks = 0;
    for _ in 0..2000 {
        let out = lava_reaction(lava, NeighborhoodView::new(&mut cells, CENTER)).unwrap();
        let mut thrown = false;
        for cell in around(CENTER) {
            if cell == CENTER - 1 {
                assert_eq!(cells[cell].unwrap().element_id(), ROCK_ID);
                assert_eq!(cells[cell].unwrap().special_info(), 5);
            } else if let Some(spark) = cells[cell] {
                thrown = true;
                sparks += 1;
                assert_eq!(spark.element_id(), FIRE_ID);
                assert_eq!(spark.special_info(), BURNS_CLEAN);
                assert_eq!(spark.temperature, 700);
                assert!((-126..=126).contains(&spark.position.x));
                assert!((-126..=126).contains(&spark.position.y));
                assert!((110..127).contains(&spark.velocity.x));
                assert!((-128..-110).contains(&spark.velocity.y));
                cells[cell] = None;
            }
        }
        if thrown {
            assert_eq!(staged_of(&out), ElementState::default(ElementId(ROCK_ID)));
        } else {
            assert_eq!(staged_of(&out), ElementState::new(ElementId(LAVA_ID), 1));
        }
        assert_eq!(out.element_id(), LAVA_ID);
    }
    assert!(sparks > 0);
    assert!(cells.iter().filter(|cell| cell.is_some()).count() == 1);
}

#[test]
fn hot_lava_does_not_cool() {
    let lava = made(LAVA_ID, 1, 800);
    let mut cells = field();
    for _ in 0..2000 {
        let out = lava_reaction(lava, NeighborhoodView::new(&mut cells, CENTER)).unwrap();
        assert_eq!(staged_of(&out), ElementState::new(ElementId(LAVA_ID), 1));
    }
    assert!(cells.iter().any(|cell| cell.is_some()));
}

#[test]
fn oil_burns_with_a_kick() {
    let mut oil = made(OIL_ID, 1, 281);
    oil.velocity = Vector { x: 100, y: -100 };
    let burning = oil_step(oil, true, true);
    assert_eq!(staged_of(&burning), ElementState::new(ElementId(FIRE_ID), BURNS_CLEAN));
    assert_eq!(burning.temperature, 1281);
    assert_eq!(burning.velocity, Vector { x: 127, y: -100 });
    assert_eq!(oil_step(oil, true, false).velocity, Vector { x: 50, y: -100 });
    assert_eq!(oil_step(oil, false, true).velocity, Vector { x: 100, y: -50 });
    assert_eq!(oil_step(oil, false, false).velocity, Vector { x: 100, y: -128 });
    oil.temperature = i16::MAX;
    assert_eq!(oil_step(oil, true, true).temperature, i16::MAX);
    oil.temperature = 280;
    let calm = oil_step(oil, true, true);
    assert_eq!(staged_of(&calm), ElementState::new(ElementId(OIL_ID), 1));
    assert_eq!(calm.velocity, Vector { x: 100, y: -100 });
    assert_eq!(calm.temperature, 280);
}

#[test]
fn what_lies_on_oil_slides() {
    let mut cells = field();
    let mut rider = made(SAND_ID, 1, 20);
    rider.velocity = Vector { x: 10, y: 5 };
    let mut seen = [false; 7];
    for _ in 0..500 {
        cells[CENTER - ROW] = Some(rider);
        let out = oil_reaction(made(OIL_ID, 1, 20), NeighborhoodView::new(&mut cells, CENTER)).unwrap();
        assert_eq!(staged_of(&out), ElementState::new(ElementId(OIL_ID), 1));
        let slid = cells[CENTER - ROW].unwrap().velocity;
        assert_eq!(slid.y, 5);
        assert!((7..=13).contains(&slid.x));
        seen[(slid.x - 7) as usize] = true;
    }
    assert!(seen.iter().filter(|&&hit| hit).count() >= 2);
    // In the first row there is nothing above.
    let mut cells = field();
    let out = oil_reaction(made(OIL_ID, 1, 20), NeighborhoodView::new(&mut cells, 5));
    assert!(out.is_some());
    assert!(cells.iter().all(|cell| cell.is_none()));
}

#[test]
fn gas_explodes_where_it_meets_fire() {
    let mut cells = field();
    let mut gas = made(GAS_ID, 1, 20);
    gas.velocity = Vector { x: 5, y: 7 };
    let fire = made(FIRE_ID, 1, 500);
    let gas_at = CENTER - 1;
    cells[gas_at] = Some(gas);
    cells[CENTER] = Some(fire);
    let (first, second) = explode(gas, fire, CollisionView::new(&mut cells, gas_at, CENTER));
    assert_eq!(staged_of(&first.unwrap()), ElementState::default(ElementId(FIRE_ID)));
    assert_eq!(first.unwrap().element_id(), GAS_ID);
    assert_eq!(second.unwrap().temperature, 500);
    let expected: [(i8, i8); 8] = [
        (-35, -70),
        (5, -45),
        (35, 0),
        (-50, -50),
        (50, 50),
        (-35, 0),
        (0, 50),
        (35, 70),
    ];
    for (k, cell) in around(CENTER).into_iter().enumerate() {
        let tile = cells[cell].unwrap();
        assert_eq!((tile.velocity.x, tile.velocity.y), expected[k]);
        if cell == gas_at {
            assert_eq!(tile.element_id(), GAS_ID);
            assert_eq!(tile.temperature, 20);
        } else {
            assert_eq!(tile.element_id(), FIRE_ID);
            assert_eq!(tile.temperature, 260);
        }
    }
    assert_eq!(cells.iter().filter(|cell| cell.is_some()).count(), 9);
}

#[test]
fn gas_at_the_edge_turns_into_fire_without_a_blast() {
    let mut cells = field();
    let gas = made(GAS_ID, 1, 20);
    let fire = made(FIRE_ID, 1, 500);
    let (first, second) = explode(gas, fire, CollisionView::new(&mut cells, 1, 0));
    assert_eq!(staged_of(&first.unwrap()), ElementState::default(ElementId(FIRE_ID)));
    assert!(second.is_some());
    assert!(cells.iter().all(|cell| cell.is_none()));
}

#[test]
fn fire_sets_sand_alight_and_fills_the_cells_round_it() {
    let mut cells = field();
    let sand = made(SAND_ID, 1, 20);
    let fire = made(FIRE_ID, 1, 500);
    let fire_at = CENTER + 1;
    cells[CENTER] = Some(sand);
    cells[fire_at] = Some(fire);
    cells[CENTER - 1] = Some(made(ROCK_ID, 1, 20));
    cells[fire_at] = None;
    let (first, second) = burn_sand(sand, fire, CollisionView::new(&mut cells, CENTER, fire_at));
    let burning = first.unwrap();
    assert_eq!(burning.temperature, 420);
    assert_eq!(staged_of(&burning), ElementState::new(ElementId(FIRE_ID), MAKES_ASH));
    assert_eq!(second.unwrap().element_id(), FIRE_ID);
    for cell in around(CENTER) {
        if cell == fire_at {
            assert!(cells[cell].is_none());
        } else if cell == CENTER - 1 {
            assert_eq!(cells[cell].unwrap().element_id(), ROCK_ID);
        } else {
            let ember = cells[cell].unwrap();
            assert_eq!(ember.element_id(), FIRE_ID);
            assert_eq!(ember.special_info(), 1);
            assert_eq!(ember.temperature, 460);
            assert!((-126..=126).contains(&ember.position.x));
            assert!((-10..10).contains(&ember.velocity.x));
            assert!((-10..10).contains(&ember.velocity.y));
        }
    }
    let very_hot = made(SAND_ID, 1, i16::MAX);
    let (first, _) = burn_sand(very_hot, fire, CollisionView::new(&mut cells, CENTER, fire_at));
    assert_eq!(first.unwrap().temperature, i16::MAX);
}

#[test]
fn water_puts_fire_out() {
    let mut cells = field();
    let water = made(WATER_ID, 1, 20);
    let (fire, same) = douse(made(FIRE_ID, MAKES_ASH, 500), water, CollisionView::new(&mut cells, 5, 6));
    assert_eq!(staged_of(&fire.unwrap()), ElementState::default(ElementId(ASH_ID)));
    assert_eq!(same.unwrap().element_id(), WATER_ID);
    let (fire, _) = douse(made(FIRE_ID, MAKES_WATER, 500), water, CollisionView::new(&mut cells, 5, 6));
    assert_eq!(staged_of(&fire.unwrap()), ElementState::default(ElementId(STEAM_ID)));
    let (fire, same) = douse(made(FIRE_ID, BURNS_CLEAN, 500), water, CollisionView::new(&mut cells, 5, 6));
    assert!(fire.is_none());
    assert!(same.is_some());
}

#[test]
fn an_electron_charges_metal_and_is_used_up() {
    let mut cells = field();
    let (metal, electron) = charge_metal(
        made(METAL_ID, NEUTRAL, 20),
        made(8, 1, 300),
        CollisionView::new(&mut cells, 5, 6),
    );
    assert_eq!(staged_of(&metal.unwrap()), ElementState::new(ElementId(METAL_ID), CHARGED_HEAD));
    assert!(electron.is_none());
}

#[test]
fn run_hook_runs_the_named_behaviour() {
    let mut cells = field();
    let hot = run_hook(PeriodicHook::Sand, made(SAND_ID, 1, 500), NeighborhoodView::new(&mut cells, CENTER)).unwrap();
    assert_eq!(staged_of(&hot), ElementState::new(ElementId(FIRE_ID), MAKES_ASH));
    let tail = run_hook(PeriodicHook::Metal, made(METAL_ID, 9, 20), NeighborhoodView::new(&mut cells, CENTER)).unwrap();
    assert_eq!(staged_of(&tail), ElementState::new(ElementId(METAL_ID), CHARGED_TAIL));
    let glass = run_hook(PeriodicHook::Glass, made(GLASS_ID, 2, 20), NeighborhoodView::new(&mut cells, CENTER)).unwrap();
    assert_eq!(staged_of(&glass), ElementState::new(ElementId(GLASS_ID), GLASS_EDGE));
    let set = run_hook(PeriodicHook::LiquidMetal, made(LIQUID_METAL_ID, 1, 20), NeighborhoodView::new(&mut cells, CENTER)).unwrap();
    assert_eq!(staged_of(&set), ElementState::default(ElementId(METAL_ID)));
    assert!(run_hook(PeriodicHook::Eraser, made(ERASER_ID, 1, 20), NeighborhoodView::new(&mut cells, CENTER)).is_none());
    let steam = run_hook(PeriodicHook::Water, made(WATER_ID, 1, 500), NeighborhoodView::new(&mut cells, CENTER)).unwrap();
    assert_eq!(staged_of(&steam), ElementState::default(ElementId(STEAM_ID)));
    let water = run_hook(PeriodicHook::Steam, made(STEAM_ID, 1, 20), NeighborhoodView::new(&mut cells, CENTER)).unwrap();
    assert_eq!(staged_of(&water), ElementState::default(ElementId(WATER_ID)));
    let fire = run_hook(PeriodicHook::Fire, made(FIRE_ID, 1, 500), NeighborhoodView::new(&mut cells, CENTER));
    assert!(fire.is_none() || fire.unwrap().element_id() == FIRE_ID);
    let oil = run_hook(PeriodicHook::Oil, made(OIL_ID, 1, 20), NeighborhoodView::new(&mut cells, CENTER)).unwrap();
    assert_eq!(oil.element_id(), OIL_ID);
    let lava = run_hook(PeriodicHook::Lava, made(LAVA_ID, 1, 1000), NeighborhoodView::new(&mut cells, CENTER)).unwrap();
    assert_eq!(lava.element_id(), LAVA_ID);
    let mut cells = field();
    let dead = run_hook(PeriodicHook::Conway, made(CONWAY_ID, ALIVE, 20), NeighborhoodView::new(&mut cells, CENTER)).unwrap();
    assert_eq!(staged_of(&dead), ElementState::new(ElementId(CONWAY_ID), DEAD));
    let dirt = run_hook(PeriodicHook::Dirt, made(DIRT_ID, 9, 20), NeighborhoodView::new(&mut cells, CENTER)).unwrap();
    assert_eq!(staged_of(&dirt), ElementState::new(ElementId(DIRT_ID), 9));
}

#[test]
fn a_reaction_wakes_the_neighbour_that_it_writes_to() {
    let mut sleeper = made(SAND_ID, 1, 20);
    sleeper.paused = true;
    // Oil nudges the tile above it.
    let mut cells = field();
    cells[CENTER - ROW] = Some(sleeper);
    cells[CENTER + ROW] = Some(sleeper);
    oil_reaction(made(OIL_ID, 1, 20), NeighborhoodView::new(&mut cells, CENTER));
    assert!(!cells[CENTER - ROW].unwrap().paused);
    assert!(cells[CENTER + ROW].unwrap().paused);
    // An explosion pushes every tile round the fire.
    let mut cells = field();
    cells[CENTER + 1] = Some(sleeper);
    cells[CENTER + 2] = Some(sleeper);
    explode(made(GAS_ID, 1, 20), made(FIRE_ID, 1, 500), CollisionView::new(&mut cells, CENTER - 1, CENTER));
    assert!(!cells[CENTER + 1].unwrap().paused);
    assert!(cells[CENTER + 2].unwrap().paused);
    // Wet dirt that gives moisture wakes, dry dirt sleeps on.
    let mut wet = made(DIRT_ID, 100, 20);
    wet.paused = true;
    let mut dry = made(DIRT_ID, 2, 20);
    dry.paused = true;
    let mut cells = field();
    cells[CENTER + 1] = Some(wet);
    cells[CENTER - 1] = Some(dry);
    dirt_reaction(made(DIRT_ID, 10, 20), NeighborhoodView::new(&mut cells, CENTER));
    assert!(!cells[CENTER + 1].unwrap().paused);
    assert!(cells[CENTER - 1].unwrap().paused);
    // Neutral metal that is shocked wakes.
    let mut neutral = made(METAL_ID, NEUTRAL, 20);
    neutral.paused = true;
    let mut cells = field();
    for &cell in around(CENTER).iter().take(4) {
        cells[cell] = Some(made(CONWAY_ID, ALIVE, 20));
    }
    cells[CENTER + 1] = Some(neutral);
    cells[CENTER + 2] = Some(neutral);
    conway_reaction(made(CONWAY_ID, ALIVE, 20), NeighborhoodView::new(&mut cells, CENTER));
    assert!(!cells[CENTER + 1].unwrap().paused);
    assert!(cells[CENTER + 2].unwrap().paused);
}

#[test]
fn the_draws_decide_where_the_sparks_of_lava_land() {
    let mut lava = made(LAVA_ID, 1, 700);
    lava.velocity = Vector { x: 3, y: -4 };
    let mut cells = field();
    cells[CENTER - 1] = Some(made(ROCK_ID, 5, 20));
    let at_rest = Vector { x: 0, y: 0 };
    let mut draws: [Option<(Vector, Vector)>; 8] = [None; 8];
    // The first cell round the lava, and the second, which holds rock.
    draws[0] = Some((Vector { x: 7, y: -8 }, Vector { x: 9, y: -10 }));
    draws[1] = Some((at_rest, at_rest));
    draws[7] = Some((Vector { x: -126, y: 126 }, Vector { x: -7, y: 5 }));
    let out = lava_step(lava, NeighborhoodView::new(&mut cells, CENTER), &draws).unwrap();
    assert_eq!(out.element_id(), LAVA_ID);
    assert_eq!(staged_of(&out), ElementState::default(ElementId(ROCK_ID)));
    assert_eq!(out.velocity, lava.velocity);
    let places = around(CENTER);
    let first = cells[places[0]].unwrap();
    assert_eq!(first.element_id(), FIRE_ID);
    assert_eq!(first.special_info(), BURNS_CLEAN);
    assert_eq!(first.position, Vector { x: 7, y: -8 });
    assert_eq!(first.velocity, Vector { x: 9, y: -10 });
    assert_eq!(first.temperature, 700);
    assert!(!first.paused);
    let rock = cells[places[1]].unwrap();
    assert_eq!(rock.element_id(), ROCK_ID);
    assert_eq!(rock.special_info(), 5);
    let last = cells[places[7]].unwrap();
    assert_eq!(last.position, Vector { x: -126, y: 126 });
    assert_eq!(last.velocity, Vector { x: -7, y: 5 });
    for k in 2..7 {
        assert!(cells[places[k]].is_none());
    }
    assert_eq!(cells.iter().filter(|cell| cell.is_some()).count(), 3);
}

#[test]
fn lava_that_throws_no_spark_stays_as_it_is() {
    let lava = made(LAVA_ID, 1, 700);
    let mut cells = field();
    for cell in around(CENTER) {
        cells[cell] = Some(made(ROCK_ID, 1, 20));
    }
    let at_rest = Vector { x: 0, y: 0 };
    // No draw, and draws for cells that all hold a tile.
    let none: [Option<(Vector, Vector)>; 8] = [None; 8];
    let all: [Option<(Vector, Vector)>; 8] = [Some((at_rest, at_rest)); 8];
    for draws in [none, all] {
        let out = lava_step(lava, NeighborhoodView::new(&mut cells, CENTER), &draws).unwrap();
        assert_eq!(out, lava);
        for cell in around(CENTER) {
            assert_eq!(cells[cell], Some(made(ROCK_ID, 1, 20)));
        }
    }
    // Hot lava throws sparks and does not cool.
    let hot = made(LAVA_ID, 1, 800);
    let mut cells = field();
    let out = lava_step(hot, NeighborhoodView::new(&mut cells, CENTER), &all).unwrap();
    assert_eq!(out, hot);
    for cell in around(CENTER) {
        assert_eq!(cells[cell].unwrap().element_id(), FIRE_ID);
        assert_eq!(cells[cell].unwrap().temperature, 800);
    }
    // At the edge of the buffer nothing happens.
    let mut cells = field();
    let out = lava_step(lava, NeighborhoodView::new(&mut cells, 0), &all).unwrap();
    assert_eq!(out, lava);
    assert!(cells.iter().all(|cell| cell.is_none()));
}
