//! The tools that draw on the grid: one that deletes tiles, one that places
//! tiles of an element.

use vstd::prelude::*;
use crate::catalog::WALL_ID;
use crate::chance::random_in_range;
use crate::element::{flags_intersect, Element, ElementId, FIXED};
use crate::tile::{ElementData, ElementState, Tile, Vector};
use crate::util::in_rect;
use crate::world::World;
use crate::world_view::CollisionView;
use crate::{point, spec_coords, WORLD_CELLS, WORLD_HEIGHT, WORLD_WIDTH};

verus! {

/// Applies `brush` once to every cell of the columns `x0..x1` and the rows
/// `y0..y1`, and leaves every other cell as it is.
fn paint<
    R: Fn(Tile, Tile) -> (Option<Tile>, Option<Tile>),
    S: for <'a>Fn(Tile, Tile, CollisionView<'a, Option<Tile>>) -> (Option<Tile>, Option<Tile>),
    F: Fn(Option<Tile>) -> Option<Tile>,
>(world: &mut World<R, S>, x0: i32, x1: i32, y0: i32, y1: i32, brush: F)
    requires
        0 <= x0 <= WORLD_WIDTH,
        0 <= x1 <= WORLD_WIDTH,
        0 <= y0 <= WORLD_HEIGHT,
        0 <= y1 <= WORLD_HEIGHT,
        forall|cell: Option<Tile>| call_requires(brush, (cell,)),
    ensures
        final(world).keeps_tables(old(world)),
        final(world).cells().len() == WORLD_CELLS,
        forall|i: int|
            0 <= i < WORLD_CELLS ==> if in_rect(i, x0 as int, x1 as int, y0 as int, y1 as int) {
                call_ensures(brush, (old(world).cells()[i],), #[trigger] final(world).cells()[i])
            } else {
                final(world).cells()[i] == old(world).cells()[i]
            },
{
    proof {
        old(world).lemma_cell_count();
    }
    let mut x = x0;
    while x < x1
        invariant
            0 <= x0 <= x <= WORLD_WIDTH,
            0 <= x1 <= WORLD_WIDTH,
            x0 < x1 ==> x <= x1,
            x0 >= x1 ==> x == x0,
            0 <= y0 <= WORLD_HEIGHT,
            0 <= y1 <= WORLD_HEIGHT,
            world.keeps_tables(old(world)),
            world.cells().len() == WORLD_CELLS,
            old(world).cells().len() == WORLD_CELLS,
            forall|cell: Option<Tile>| call_requires(brush, (cell,)),
            forall|i: int|
                0 <= i < WORLD_CELLS ==> if in_rect(i, x0 as int, x as int, y0 as int, y1 as int) {
                    call_ensures(brush, (old(world).cells()[i],), #[trigger] world.cells()[i])
                } else {
                    world.cells()[i] == old(world).cells()[i]
                },
        decreases x1 - x,
    {
        let mut y = y0;
        while y < y1
            invariant
                0 <= x0 <= x < x1 <= WORLD_WIDTH,
                0 <= y0 <= y <= WORLD_HEIGHT,
                0 <= y1 <= WORLD_HEIGHT,
                y0 < y1 ==> y <= y1,
                y0 >= y1 ==> y == y0,
                world.keeps_tables(old(world)),
                world.cells().len() == WORLD_CELLS,
                old(world).cells().len() == WORLD_CELLS,
                forall|cell: Option<Tile>| call_requires(brush, (cell,)),
                forall|i: int|
                    0 <= i < WORLD_CELLS ==> if in_rect(i, x0 as int, x as int, y0 as int, y1 as int)
                        || in_rect(i, x as int, x + 1, y0 as int, y as int) {
                        call_ensures(brush, (old(world).cells()[i],), #[trigger] world.cells()[i])
                    } else {
                        world.cells()[i] == old(world).cells()[i]
                    },
            decreases y1 - y,
        {
            let at = point(x, y);
            let ghost before = world.cells();
            let cell = world.index_mut(at);
            let painted = brush(*cell);
            *cell = painted;
            proof {
                assert forall|i: int| 0 <= i < WORLD_CELLS implies if in_rect(
                    i,
                    x0 as int,
                    x as int,
                    y0 as int,
                    y1 as int,
                ) || in_rect(i, x as int, x + 1, y0 as int, y + 1) {
                    call_ensures(brush, (old(world).cells()[i],), #[trigger] world.cells()[i])
                } else {
                    world.cells()[i] == old(world).cells()[i]
                } by {
                    if i == at {
                        assert(spec_coords(i) == (x as int, y as int));
                        assert(before[i] == old(world).cells()[i]);
                    } else {
                        assert(world.cells()[i] == before[i]);
                        assert(spec_coords(i) != (x as int, y as int)) by {
                            assert(i == spec_coords(i).0 + spec_coords(i).1 * 200);
                        }
                    }
                }
            }
            y += 1;
        }
        x += 1;
    }
}

/// `value` held to the range from `low` to `high`.
fn held_between(value: i64, low: i32, high: i32) -> (held: i32)
    requires
        low <= high,
    ensures
        held == if value < low {
            low as int
        } else if value > high {
            high as int
        } else {
            value as int
        },
{
    if value < low as i64 {
        low
    } else if value > high as i64 {
        high
    } else {
        value as i32
    }
}

/// Whether the cell `i` lies within `radius` columns and rows of the cell
/// in column `x` and row `y`.
pub open spec fn in_reach(i: int, x: int, y: int, radius: int) -> bool {
    x - radius <= spec_coords(i).0 <= x + radius && y - radius <= spec_coords(i).1 <= y + radius
}

/// The cell after the deleting pen has passed: only a wall stays.
pub open spec fn wiped(cell: Option<Tile>) -> Option<Tile> {
    match cell {
        Some(tile) => if tile.id() == WALL_ID {
            cell
        } else {
            None
        },
        None => None,
    }
}

/// Clears the cell unless it holds a wall.
fn wipe(cell: Option<Tile>) -> (out: Option<Tile>)
    ensures
        out == wiped(cell),
{
    match cell {
        Some(tile) => if tile.element_id() == WALL_ID {
            cell
        } else {
            None
        },
        None => None,
    }
}

/// The pen that deletes tiles.
pub struct DeletePen {
    pub radius: i32,
}

impl DeletePen {
    /// Deletes every tile within the pen's radius of the cell in column `x`
    /// and row `y`, walls excepted. Cells outside the grid are passed
    /// over.
    pub fn draw<
        R: Fn(Tile, Tile) -> (Option<Tile>, Option<Tile>),
        S: for <'a>Fn(Tile, Tile, CollisionView<'a, Option<Tile>>) -> (Option<Tile>, Option<Tile>),
    >(&mut self, world: &mut World<R, S>, x: i32, y: i32)
        ensures
            final(self).radius == old(self).radius,
            final(world).keeps_tables(old(world)),
            final(world).cells().len() == WORLD_CELLS,
            forall|i: int|
                0 <= i < WORLD_CELLS ==> #[trigger] final(world).cells()[i] == if in_reach(
                    i,
                    x as int,
                    y as int,
                    old(self).radius as int,
                ) {
                    wiped(old(world).cells()[i])
                } else {
                    old(world).cells()[i]
                },
    {
        let x0 = held_between(x as i64 - self.radius as i64, 0, WORLD_WIDTH);
        let x1 = held_between(x as i64 + self.radius as i64 + 1, 0, WORLD_WIDTH);
        let y0 = held_between(y as i64 - self.radius as i64, 0, WORLD_HEIGHT);
        let y1 = held_between(y as i64 + self.radius as i64 + 1, 0, WORLD_HEIGHT);
        proof {
            old(world).lemma_cell_count();
            assert forall|i: int| 0 <= i < WORLD_CELLS implies in_rect(
                i,
                x0 as int,
                x1 as int,
                y0 as int,
                y1 as int,
            ) == in_reach(i, x as int, y as int, self.radius as int) by {
                assert(0 <= spec_coords(i).0 < 200 && 0 <= spec_coords(i).1 < 200);
            }
        }
        paint(world, x0, x1, y0, y1, wipe);
    }

    pub fn get_radius(&self) -> (radius: i32)
        ensures
            radius == self.radius,
    {
        self.radius
    }

    pub fn set_radius(&mut self, radius: i32)
        ensures
            final(self).radius == radius,
    {
        self.radius = radius
    }
}

/// The fastest that a freshly drawn tile moves along an axis.
pub const PEN_SCATTER: i8 = 20;

/// A tile as the element pen draws it: fresh, in the middle of its cell, at
/// the element's default temperature, with the given velocity.
pub open spec fn drawn_tile(element: Element, velocity: Vector) -> Tile {
    Tile {
        paused: false,
        velocity,
        position: Vector { x: 0, y: 0 },
        temperature: element.default_temperature,
        element_data: ElementData {
            current: ElementState::spec_new(ElementId(element.id), 1),
            staged: ElementState::spec_new(ElementId(element.id), 1),
        },
    }
}

/// Whether `velocity` is one that the pen may give a tile of `element`: none
/// for a fixed element, else at most the scatter along each axis.
pub open spec fn is_pen_velocity(element: Element, velocity: Vector) -> bool {
    if flags_intersect(element.flags, FIXED) {
        velocity == (Vector { x: 0, y: 0 })
    } else {
        -PEN_SCATTER <= velocity.x <= PEN_SCATTER && -PEN_SCATTER <= velocity.y <= PEN_SCATTER
    }
}

/// Whether the element pen may have turned the cell `before` into `after`:
/// a tile stays as it is, and an empty cell gets a tile of the element.
pub open spec fn is_drawn(element: Element, before: Option<Tile>, after: Option<Tile>) -> bool {
    if before.is_some() {
        after == before
    } else {
        exists|velocity: Vector|
            is_pen_velocity(element, velocity) && after == Some(#[trigger] drawn_tile(element, velocity))
    }
}

/// Fills the cell, if it is empty, with a tile of `element`.
fn place(element: &Element, cell: Option<Tile>) -> (out: Option<Tile>)
    ensures
        is_drawn(*element, cell, out),
{
    let velocity = if element.has_flag(FIXED) {
        Vector { x: 0, y: 0 }
    } else {
        Vector {
            x: random_in_range(-(PEN_SCATTER as i32), PEN_SCATTER as i32 + 1) as i8,
            y: random_in_range(-(PEN_SCATTER as i32), PEN_SCATTER as i32 + 1) as i8,
        }
    };
    if cell.is_none() {
        let tile = Tile::new(
            ElementState::default(element.id()),
            Vector { x: 0, y: 0 },
            velocity,
            element.default_temperature,
        );
        assert(tile == drawn_tile(*element, velocity));
        Some(tile)
    } else {
        cell
    }
}

/// The pen that places tiles of one element.
pub struct ElementPen {
    pub element: Element,
    pub radius: i32,
}

impl ElementPen {
    /// Fills every empty cell within the pen's radius of the cell in column
    /// `x` and row `y` with a tile of the pen's element. Cells that hold a
    /// tile stay as they are, and cells outside the grid are passed over.
    pub fn draw<
        R: Fn(Tile, Tile) -> (Option<Tile>, Option<Tile>),
        S: for <'a>Fn(Tile, Tile, CollisionView<'a, Option<Tile>>) -> (Option<Tile>, Option<Tile>),
    >(&mut self, world: &mut World<R, S>, x: i32, y: i32)
        ensures
            *final(self) == *old(self),
            final(world).keeps_tables(old(world)),
            final(world).cells().len() == WORLD_CELLS,
            forall|i: int|
                0 <= i < WORLD_CELLS ==> if in_reach(i, x as int, y as int, old(self).radius as int) {
                    is_drawn(old(self).element, old(world).cells()[i], #[trigger] final(world).cells()[i])
                } else {
                    final(world).cells()[i] == old(world).cells()[i]
                },
    {
        let x0 = held_between(x as i64 - self.radius as i64, 0, WORLD_WIDTH);
        let x1 = held_between(x as i64 + self.radius as i64 + 1, 0, WORLD_WIDTH);
        let y0 = held_between(y as i64 - self.radius as i64, 0, WORLD_HEIGHT);
        let y1 = held_between(y as i64 + self.radius as i64 + 1, 0, WORLD_HEIGHT);
        proof {
            old(world).lemma_cell_count();
            assert forall|i: int| 0 <= i < WORLD_CELLS implies in_rect(
                i,
                x0 as int,
                x1 as int,
                y0 as int,
                y1 as int,
            ) == in_reach(i, x as int, y as int, self.radius as int) by {
                assert(0 <= spec_coords(i).0 < 200 && 0 <= spec_coords(i).1 < 200);
            }
        }
        let element = self.element;
        let brush = |cell: Option<Tile>| -> (out: Option<Tile>)
            ensures
                is_drawn(element, cell, out),
            { place(&element, cell) };
        paint(world, x0, x1, y0, y1, brush);
    }

    pub fn get_radius(&self) -> (radius: i32)
        ensures
            radius == self.radius,
    {
        self.radius
    }

    pub fn set_radius(&mut self, radius: i32)
        ensures
            final(self).radius == radius,
            final(self).element == old(self).element,
    {
        self.radius = radius
    }
}

} // verus!
