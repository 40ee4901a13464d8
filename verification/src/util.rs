//! Ready-made arrangements of tiles.

use vstd::prelude::*;
use crate::catalog::{spec_element, FIRE_ID, GAS_ID, ROCK_ID, ROOM_TEMPERATURE, SAND_ID, WALL_ID};
use crate::chance::random_in_range;
use crate::element::ElementId;
use crate::tile::{ElementData, ElementState, Tile, Vector};
use crate::world::{Cells, World};
use crate::world_view::CollisionView;
use crate::{point, spec_coords, WORLD_CELLS, WORLD_HEIGHT, WORLD_WIDTH};

verus! {

/// Whether the cell `i` lies in the columns `x0..x1` and the rows `y0..y1`.
pub open spec fn in_rect(i: int, x0: int, x1: int, y0: int, y1: int) -> bool {
    x0 <= spec_coords(i).0 < x1 && y0 <= spec_coords(i).1 < y1
}

/// The grid with `tile` in every cell of the columns `x0..x1` and the rows
/// `y0..y1`.
pub open spec fn filled(cells: Cells, x0: int, x1: int, y0: int, y1: int, tile: Tile) -> Cells {
    Seq::new(
        cells.len(),
        |i: int|
            if in_rect(i, x0, x1, y0, y1) {
                Some(tile)
            } else {
                cells[i]
            },
    )
}

/// A fresh tile of `element` at room temperature, in the middle of its
/// cell.
pub open spec fn fresh_tile(element: u8, velocity: Vector, paused: bool) -> Tile {
    Tile {
        paused,
        velocity,
        position: Vector { x: 0, y: 0 },
        temperature: ROOM_TEMPERATURE,
        element_data: ElementData {
            current: ElementState::spec_new(ElementId(element), 1),
            staged: ElementState::spec_new(ElementId(element), 1),
        },
    }
}

/// Builds a fresh tile of `element` at room temperature.
fn make_tile(element: u8, velocity: Vector, paused: bool) -> (tile: Tile)
    ensures
        tile == fresh_tile(element, velocity, paused),
{
    let mut tile = Tile::new(
        ElementState::default(ElementId(element)),
        Vector { x: 0, y: 0 },
        velocity,
        ROOM_TEMPERATURE,
    );
    tile.paused = paused;
    tile
}

/// Puts `tile` in every cell of the columns `x0..x1` and the rows `y0..y1`.
fn fill_rect<
    R: Fn(Tile, Tile) -> (Option<Tile>, Option<Tile>),
    S: for <'a>Fn(Tile, Tile, CollisionView<'a, Option<Tile>>) -> (Option<Tile>, Option<Tile>),
>(world: &mut World<R, S>, x0: i32, x1: i32, y0: i32, y1: i32, tile: Tile)
    requires
        0 <= x0 <= x1 <= WORLD_WIDTH,
        0 <= y0 <= y1 <= WORLD_HEIGHT,
    ensures
        final(world).cells() == filled(old(world).cells(), x0 as int, x1 as int, y0 as int, y1 as int, tile),
        final(world).keeps_tables(old(world)),
{
    proof {
        old(world).lemma_cell_count();
    }
    let mut x = x0;
    while x < x1
        invariant
            0 <= x0 <= x <= x1 <= WORLD_WIDTH,
            0 <= y0 <= y1 <= WORLD_HEIGHT,
            world.keeps_tables(old(world)),
            world.cells().len() == WORLD_CELLS,
            old(world).cells().len() == WORLD_CELLS,
            forall|i: int|
                0 <= i < WORLD_CELLS ==> #[trigger] world.cells()[i] == if in_rect(
                    i,
                    x0 as int,
                    x as int,
                    y0 as int,
                    y1 as int,
                ) {
                    Some(tile)
                } else {
                    old(world).cells()[i]
                },
        decreases x1 - x,
    {
        let mut y = y0;
        while y < y1
            invariant
                0 <= x0 <= x < x1 <= WORLD_WIDTH,
                0 <= y0 <= y <= y1 <= WORLD_HEIGHT,
                world.keeps_tables(old(world)),
                world.cells().len() == WORLD_CELLS,
                old(world).cells().len() == WORLD_CELLS,
                forall|i: int|
                    0 <= i < WORLD_CELLS ==> #[trigger] world.cells()[i] == if in_rect(
                        i,
                        x0 as int,
                        x as int,
                        y0 as int,
                        y1 as int,
                    ) || in_rect(i, x as int, x + 1, y0 as int, y as int) {
                        Some(tile)
                    } else {
                        old(world).cells()[i]
                    },
            decreases y1 - y,
        {
            let at = point(x, y);
            let ghost before = world.cells();
            let cell = world.index_mut(at);
            *cell = Some(tile);
            proof {
                assert forall|i: int| 0 <= i < WORLD_CELLS implies #[trigger] world.cells()[i]
                    == if in_rect(i, x0 as int, x as int, y0 as int, y1 as int) || in_rect(
                    i,
                    x as int,
                    x + 1,
                    y0 as int,
                    y + 1,
                ) {
                    Some(tile)
                } else {
                    old(world).cells()[i]
                } by {
                    if i == at {
                        assert(spec_coords(i) == (x as int, y as int));
                    } else {
                        assert(world.cells()[i] == before[i]);
                        assert(spec_coords(i) != (x as int, y as int)) by {
                            assert(i == spec_coords(i).0 + spec_coords(i).1 * 200);
                        }
                    }
                }
            }
            y += 1;
        }
        x += 1;
    }
    proof {
        assert(world.cells() =~= filled(
            old(world).cells(),
            x0 as int,
            x1 as int,
            y0 as int,
            y1 as int,
            tile,
        ));
    }
}

/// One tile of gas in column 10 and row 10 that flies to the right at full
/// speed.
pub fn populate_world_bullet<
    R: Fn(Tile, Tile) -> (Option<Tile>, Option<Tile>),
    S: for <'a>Fn(Tile, Tile, CollisionView<'a, Option<Tile>>) -> (Option<Tile>, Option<Tile>),
>(world: &mut World<R, S>)
    ensures
        final(world).cells() == filled(
            old(world).cells(),
            10,
            11,
            10,
            11,
            fresh_tile(GAS_ID, Vector { x: 127, y: 0 }, false),
        ),
        final(world).keeps_tables(old(world)),
{
    fill_rect(world, 10, 11, 10, 11, make_tile(GAS_ID, Vector { x: 127, y: 0 }, false));
}

/// A floor of sleeping sand, nineteen rows deep, and a block of sand that
/// hangs above it.
pub fn populate_world_water_bubble<
    R: Fn(Tile, Tile) -> (Option<Tile>, Option<Tile>),
    S: for <'a>Fn(Tile, Tile, CollisionView<'a, Option<Tile>>) -> (Option<Tile>, Option<Tile>),
>(world: &mut World<R, S>)
    ensures
        final(world).cells() == filled(
            filled(
                old(world).cells(),
                1,
                WORLD_WIDTH - 1,
                WORLD_HEIGHT - 20,
                WORLD_HEIGHT - 1,
                fresh_tile(SAND_ID, Vector { x: 0, y: 0 }, true),
            ),
            20,
            WORLD_WIDTH - 20,
            WORLD_HEIGHT - 65,
            WORLD_HEIGHT - 45,
            fresh_tile(SAND_ID, Vector { x: 0, y: 0 }, false),
        ),
        final(world).keeps_tables(old(world)),
{
    fill_rect(
        world,
        1,
        WORLD_WIDTH - 1,
        WORLD_HEIGHT - 20,
        WORLD_HEIGHT - 1,
        make_tile(SAND_ID, Vector { x: 0, y: 0 }, true),
    );
    fill_rect(
        world,
        20,
        WORLD_WIDTH - 20,
        WORLD_HEIGHT - 65,
        WORLD_HEIGHT - 45,
        make_tile(SAND_ID, Vector { x: 0, y: 0 }, false),
    );
}

/// A block of gas at rest, and a second block that flies toward it from the
/// right.
pub fn populate_world_pileup<
    R: Fn(Tile, Tile) -> (Option<Tile>, Option<Tile>),
    S: for <'a>Fn(Tile, Tile, CollisionView<'a, Option<Tile>>) -> (Option<Tile>, Option<Tile>),
>(world: &mut World<R, S>)
    ensures
        final(world).cells() == filled(
            filled(
                old(world).cells(),
                5,
                10,
                5,
                10,
                fresh_tile(GAS_ID, Vector { x: 0, y: 0 }, false),
            ),
            55,
            60,
            5,
            10,
            fresh_tile(GAS_ID, Vector { x: -10i8, y: 0 }, false),
        ),
        final(world).keeps_tables(old(world)),
{
    fill_rect(world, 5, 10, 5, 10, make_tile(GAS_ID, Vector { x: 0, y: 0 }, false));
    fill_rect(world, 55, 60, 5, 10, make_tile(GAS_ID, Vector { x: -10, y: 0 }, false));
}

/// Whether the cell `i` lies on the edge of the grid.
pub open spec fn is_border(i: int) -> bool {
    spec_coords(i).0 == 0 || spec_coords(i).0 == WORLD_WIDTH - 1 || spec_coords(i).1 == 0
        || spec_coords(i).1 == WORLD_HEIGHT - 1
}

/// A wall tile as `create_walls` builds it.
pub open spec fn wall_tile() -> Tile {
    fresh_tile(WALL_ID, Vector { x: 0, y: 0 }, false)
}

/// Walls off the grid: every cell on its edge gets a wall tile, and no other
/// cell changes.
pub fn create_walls<
    R: Fn(Tile, Tile) -> (Option<Tile>, Option<Tile>),
    S: for <'a>Fn(Tile, Tile, CollisionView<'a, Option<Tile>>) -> (Option<Tile>, Option<Tile>),
>(world: &mut World<R, S>)
    ensures
        final(world).cells().len() == WORLD_CELLS,
        forall|i: int|
            0 <= i < WORLD_CELLS ==> #[trigger] final(world).cells()[i] == if is_border(i) {
                Some(wall_tile())
            } else {
                old(world).cells()[i]
            },
        final(world).keeps_tables(old(world)),
{
    let wall = make_tile(WALL_ID, Vector { x: 0, y: 0 }, false);
    proof {
        old(world).lemma_cell_count();
    }
    fill_rect(world, 0, WORLD_WIDTH, 0, 1, wall);
    fill_rect(world, 0, WORLD_WIDTH, WORLD_HEIGHT - 1, WORLD_HEIGHT, wall);
    fill_rect(world, 0, 1, 0, WORLD_HEIGHT, wall);
    fill_rect(world, WORLD_WIDTH - 1, WORLD_WIDTH, 0, WORLD_HEIGHT, wall);
}

/// The element of the `n`th tile that `populate_world` scatters: rock for
/// the first fifteen, sand for the next fifteen, fire from there on.
pub open spec fn scattered_element(n: int) -> u8 {
    if n < 15 {
        ROCK_ID
    } else if n < 30 {
        SAND_ID
    } else {
        FIRE_ID
    }
}

/// Whether `draw`, a cell and the tile that lands in it, can be the `n`th
/// draw of `populate_world`: the cell lies in the columns 15..35 and the
/// rows 5..25, and the tile is a fresh tile of the `n`th element at its
/// element's default temperature, at rest or moving one unit up or left.
pub open spec fn is_draw(n: int, draw: (usize, Tile)) -> bool {
    &&& in_rect(draw.0 as int, 15, 35, 5, 25)
    &&& exists|velocity: Vector|
        -1 <= velocity.x <= 0 && -1 <= velocity.y <= 0 && draw.1 == (Tile {
            temperature: spec_element(scattered_element(n)).default_temperature,
            ..#[trigger] fresh_tile(scattered_element(n), velocity, false)
        })
}

/// The grid after the tiles of `draws` have landed in their cells, one
/// after the other.
pub open spec fn after_draws(cells: Cells, draws: Seq<(usize, Tile)>) -> Cells
    decreases draws.len(),
{
    if draws.len() == 0 {
        cells
    } else {
        after_draws(cells, draws.drop_last()).update(draws.last().0 as int, Some(draws.last().1))
    }
}

/// Tiles that land in cells of the grid leave the number of cells as it is.
pub proof fn lemma_draws_keep_the_length(cells: Cells, draws: Seq<(usize, Tile)>)
    requires
        forall|m: int| 0 <= m < draws.len() ==> (#[trigger] draws[m]).0 < cells.len(),
    ensures
        after_draws(cells, draws).len() == cells.len(),
    decreases draws.len(),
{
    if draws.len() > 0 {
        let earlier = draws.drop_last();
        assert forall|m: int| 0 <= m < earlier.len() implies (#[trigger] earlier[m]).0 < cells.len() by {
            assert(earlier[m] == draws[m]);
        }
        lemma_draws_keep_the_length(cells, earlier);
        assert(draws[draws.len() - 1].0 < cells.len());
    }
}

/// Tiles that land change no cell but their own.
pub proof fn lemma_undrawn_cell_stays(cells: Cells, draws: Seq<(usize, Tile)>, i: int)
    requires
        0 <= i < cells.len(),
        forall|m: int|
            0 <= m < draws.len() ==> (#[trigger] draws[m]).0 < cells.len() && draws[m].0 != i,
    ensures
        after_draws(cells, draws)[i] == cells[i],
    decreases draws.len(),
{
    if draws.len() > 0 {
        let earlier = draws.drop_last();
        assert forall|m: int| 0 <= m < earlier.len() implies (#[trigger] earlier[m]).0 < cells.len()
            && earlier[m].0 != i by {
            assert(earlier[m] == draws[m]);
        }
        lemma_undrawn_cell_stays(cells, earlier, i);
        lemma_draws_keep_the_length(cells, earlier);
        assert(draws[draws.len() - 1].0 != i);
        assert(draws[draws.len() - 1].0 < cells.len());
    }
}

/// A tile that has landed is in its cell in the end unless a later tile
/// landed in the same cell.
pub proof fn lemma_draw_stays(cells: Cells, draws: Seq<(usize, Tile)>, n: int)
    requires
        0 <= n < draws.len(),
        forall|m: int| 0 <= m < draws.len() ==> (#[trigger] draws[m]).0 < cells.len(),
        forall|m: int| n < m < draws.len() ==> (#[trigger] draws[m]).0 != draws[n].0,
    ensures
        after_draws(cells, draws)[draws[n].0 as int] == Some(draws[n].1),
    decreases draws.len(),
{
    let earlier = draws.drop_last();
    let last = draws.len() - 1;
    assert forall|m: int| 0 <= m < earlier.len() implies (#[trigger] earlier[m]).0 < cells.len() by {
        assert(earlier[m] == draws[m]);
    }
    lemma_draws_keep_the_length(cells, earlier);
    assert(draws[last].0 < cells.len());
    assert(draws[n].0 < cells.len());
    if n < last {
        assert(earlier[n] == draws[n]);
        assert(draws[last].0 != draws[n].0);
        assert forall|m: int| n < m < earlier.len() implies (#[trigger] earlier[m]).0 != earlier[n].0 by {
            assert(earlier[m] == draws[m]);
        }
        lemma_draw_stays(cells, earlier, n);
    }
}

/// Scatters fifteen tiles each of rock, sand and fire, by chance, over the
/// columns 15..35 and the rows 5..25: there are forty-five draws, each a
/// cell of that square and a tile of the element whose turn it is, and the
/// grid ends as it is after the tiles have landed in their cells, one after
/// the other. A tile that lands on another replaces it.
pub fn populate_world<
    R: Fn(Tile, Tile) -> (Option<Tile>, Option<Tile>),
    S: for <'a>Fn(Tile, Tile, CollisionView<'a, Option<Tile>>) -> (Option<Tile>, Option<Tile>),
>(world: &mut World<R, S>)
    ensures
        final(world).keeps_tables(old(world)),
        exists|draws: Seq<(usize, Tile)>|
            draws.len() == 45 && (forall|n: int| 0 <= n < 45 ==> is_draw(n, #[trigger] draws[n]))
                && final(world).cells() == #[trigger] after_draws(old(world).cells(), draws),
{
    proof {
        old(world).lemma_cell_count();
    }
    let ghost mut draws: Seq<(usize, Tile)> = Seq::empty();
    let mut i: i32 = 0;
    while i < 45
        invariant
            0 <= i <= 45,
            world.keeps_tables(old(world)),
            world.cells().len() == WORLD_CELLS,
            draws.len() == i,
            forall|n: int| 0 <= n < i ==> is_draw(n, #[trigger] draws[n]),
            world.cells() == after_draws(old(world).cells(), draws),
        decreases 45 - i,
    {
        let x_offset = random_in_range(0, 20);
        let y_offset = random_in_range(0, 20);
        let element = if i < 15 {
            ROCK_ID
        } else if i < 30 {
            SAND_ID
        } else {
            FIRE_ID
        };
        let velocity = Vector {
            x: random_in_range(-1, 1) as i8,
            y: random_in_range(-1, 1) as i8,
        };
        let tile = Tile::new(
            ElementState::default(ElementId(element)),
            Vector { x: 0, y: 0 },
            velocity,
            ElementId(element).get_element().default_temperature,
        );
        let at = point(15 + x_offset, 5 + y_offset);
        let ghost before = world.cells();
        let ghost earlier = draws;
        let cell = world.index_mut(at);
        *cell = Some(tile);
        proof {
            assert(tile == (Tile {
                temperature: spec_element(element).default_temperature,
                ..fresh_tile(element, velocity, false)
            }));
            assert(in_rect(at as int, 15, 35, 5, 25));
            draws = earlier.push((at, tile));
            assert(is_draw(i as int, (at, tile)));
            assert(draws.drop_last() =~= earlier);
            assert(world.cells() =~= before.update(at as int, Some(tile)));
            assert forall|n: int| 0 <= n < i + 1 implies is_draw(n, #[trigger] draws[n]) by {
                if n < i {
                    assert(draws[n] == earlier[n]);
                }
            }
        }
        i += 1;
    }
}

} // verus!
