//! Lava, which throws sparks and cools into rock.

use vstd::prelude::*;
use crate::catalog::{spec_element, FIRE_ID, LAVA_ID, ROCK_ID};
use crate::chance::random_in_range;
use crate::element::{Element, ElementId};
use crate::fire::BURNS_CLEAN;
use crate::tile::{clamp_velocity, saturating_add, ElementData, ElementState, Tile, Vector};
use crate::world_view::{is_around, NeighborhoodView};
use crate::{has_margin, spec_raw_neighbors, WORLD_WIDTH};

verus! {

/// Lava throws a spark into an empty cell once in this many tries.
pub const SPARK_RARITY: i32 = 150;

/// Temperature below which lava that has thrown a spark cools into rock.
pub const LAVA_COOLS_TEMPERATURE: i16 = 800;

/// The most that a spark's velocity differs from the lava's.
pub const SPARK_SPREAD: i8 = 10;

pub fn lava() -> (e: Element)
    ensures
        e == spec_element(LAVA_ID),
{
    ElementId(LAVA_ID).get_element()
}

/// The spark that lava throws, with the given position and velocity: clean
/// fire, awake, as hot as the lava.
pub open spec fn spark(lava: Tile, position: Vector, velocity: Vector) -> Tile {
    Tile {
        paused: false,
        velocity,
        position,
        temperature: lava.temperature,
        element_data: ElementData {
            current: ElementState::spec_new(ElementId(FIRE_ID), BURNS_CLEAN),
            staged: ElementState::spec_new(ElementId(FIRE_ID), BURNS_CLEAN),
        },
    }
}

/// Whether `v` is a velocity that chance may give a spark of lava that moves
/// with `lava_v` on the same axis.
pub open spec fn is_spark_velocity(v: i8, lava_v: i8) -> bool {
    clamp_velocity(lava_v - SPARK_SPREAD) <= v < clamp_velocity(lava_v + SPARK_SPREAD)
}

/// Whether `tile` is a spark that `lava` may throw.
pub open spec fn is_spark(tile: Tile, lava: Tile) -> bool {
    exists|position: Vector, velocity: Vector|
        -126 <= position.x <= 126 && -126 <= position.y <= 126 && is_spark_velocity(
            velocity.x,
            lava.velocity.x,
        ) && is_spark_velocity(velocity.y, lava.velocity.y) && tile == #[trigger] spark(
            lava,
            position,
            velocity,
        )
}

/// Lava after it has thrown a spark: below its cooling temperature it is
/// staged to become rock.
pub open spec fn cooled(lava: Tile) -> Tile {
    if lava.temperature < LAVA_COOLS_TEMPERATURE {
        lava.with_staged(ElementState::spec_new(ElementId(ROCK_ID), 1))
    } else {
        lava
    }
}

/// Builds a spark.
fn make_spark(lava: &Tile, position: Vector, velocity: Vector) -> (tile: Tile)
    ensures
        tile == spark(*lava, position, velocity),
{
    Tile::new(ElementState::new(ElementId(FIRE_ID), BURNS_CLEAN), position, velocity, lava.temperature)
}

/// The position and velocity of a spark of `lava`, drawn by chance.
fn draw_spark(lava: &Tile) -> (parts: (Vector, Vector))
    ensures
        is_spark_draw(*lava, Some(parts)),
{
    let position = Vector {
        x: random_in_range(-126, 127) as i8,
        y: random_in_range(-126, 127) as i8,
    };
    let velocity = Vector {
        x: random_in_range(
            saturating_add(lava.velocity.x, -SPARK_SPREAD) as i32,
            saturating_add(lava.velocity.x, SPARK_SPREAD) as i32,
        ) as i8,
        y: random_in_range(
            saturating_add(lava.velocity.y, -SPARK_SPREAD) as i32,
            saturating_add(lava.velocity.y, SPARK_SPREAD) as i32,
        ) as i8,
    };
    (position, velocity)
}

/// The periodic reaction of lava: into each empty cell around it, chance
/// permitting, it throws a spark. Lava that has thrown a spark is staged to
/// cool where it is cold enough; lava that has thrown none stays as it is.
/// Chance draws for the empty cells only; what the draws lead to is what
/// `lava_step` says of them.
pub fn lava_reaction(this: Tile, mut view: NeighborhoodView<'_, Option<Tile>>) -> (out: Option<Tile>)
    ensures
        exists|draws: Seq<Option<(Vector, Vector)>>|
            {
                &&& draws.len() == 8
                &&& forall|k: int| 0 <= k < 8 ==> is_spark_draw(this, #[trigger] draws[k])
                &&& out == Some(lava_after(this, view.cells(), view.index as int, draws))
                &&& final(view.slice)@ == #[trigger] grid_after_sparks(
                    view.cells(),
                    view.index as int,
                    this,
                    draws,
                )
            },
        final(view.slice)@.len() == view.cells().len(),
        forall|j: int|
            0 <= j < view.cells().len() ==> #[trigger] final(view.slice)@[j] == view.cells()[j] || (
            view.has_margin() && is_around(view.index as int, j) && view.cells()[j].is_none()
                && final(view.slice)@[j].is_some() && is_spark(final(view.slice)@[j].unwrap(), this)),
{
    let mut draws: [Option<(Vector, Vector)>; 8] = [None;8];
    let ghost cells = view.cells();
    let ghost index = view.index as int;
    if view.surrounded() {
        let around = view.neighbors();
        let mut k: usize = 0;
        while k < 8
            invariant
                k <= 8,
                around@.len() == 8,
                view.has_margin(),
                view.cells() == cells,
                view.index == index,
                forall|j: int|
                    0 <= j < 8 ==> (#[trigger] around@[j]).0 == spec_raw_neighbors(index)[j] && around@[j].0
                        < cells.len(),
                forall|j: int| 0 <= j < 8 ==> is_spark_draw(this, #[trigger] draws@[j]),
            decreases 8 - k,
        {
            if view.index(around[k]).is_none() {
                // Sprinkle fire into empty cells.
                if random_in_range(0, SPARK_RARITY) == 0 {
                    let parts = draw_spark(&this);
                    draws[k] = Some(parts);
                }
            }
            k += 1;
        }
    }
    let out = lava_step(this, view, &draws);
    proof {
        lemma_sparks_land_in_empty_cells(cells, index, this, draws@, 8);
        assert forall|j: int| 0 <= j < cells.len() implies #[trigger] grid_after_sparks(
            cells,
            index,
            this,
            draws@,
        )[j] == cells[j] || (has_margin(index, cells.len() as int) && is_around(index, j)
            && cells[j].is_none() && grid_after_sparks(cells, index, this, draws@)[j].is_some()
            && is_spark(grid_after_sparks(cells, index, this, draws@)[j].unwrap(), this)) by {
            let after = grid_after_sparks(cells, index, this, draws@);
            if after[j] != cells[j] {
                let i = choose|i: int|
                    0 <= i < 8 && spec_raw_neighbors(index)[i] == j && lands(cells, index, draws@, i)
                        && after[j] == Some(
                        spark(this, draws@[i].unwrap().0, draws@[i].unwrap().1),
                    );
                assert(is_spark_draw(this, draws@[i]));
                assert(spec_raw_neighbors(index).contains(j));
            }
        }
    }
    out
}

/// Whether chance may draw `draw` for a cell around `lava`: no spark, or a
/// spark anywhere in its cell whose velocity is near the lava's.
pub open spec fn is_spark_draw(lava: Tile, draw: Option<(Vector, Vector)>) -> bool {
    match draw {
        Some((position, velocity)) => -126 <= position.x <= 126 && -126 <= position.y <= 126
            && is_spark_velocity(velocity.x, lava.velocity.x) && is_spark_velocity(
            velocity.y,
            lava.velocity.y,
        ),
        None => true,
    }
}

/// Whether the draw with number `k` leads to a spark: the cell with that
/// number around `index` is empty, and chance has drawn a spark for it.
pub open spec fn lands(cells: Seq<Option<Tile>>, index: int, draws: Seq<Option<(Vector, Vector)>>, k: int) -> bool {
    cells[spec_raw_neighbors(index)[k]].is_none() && draws[k].is_some()
}

/// The grid after the first `k` draws have been carried out round the lava
/// at `index`: each draw that lands puts its spark into its cell.
pub open spec fn after_sparks(
    cells: Seq<Option<Tile>>,
    index: int,
    lava: Tile,
    draws: Seq<Option<(Vector, Vector)>>,
    k: int,
) -> Seq<Option<Tile>>
    decreases k,
{
    if k <= 0 {
        cells
    } else {
        let earlier = after_sparks(cells, index, lava, draws, k - 1);
        if lands(cells, index, draws, k - 1) {
            earlier.update(
                spec_raw_neighbors(index)[k - 1],
                Some(spark(lava, draws[k - 1].unwrap().0, draws[k - 1].unwrap().1)),
            )
        } else {
            earlier
        }
    }
}

/// Whether one of the first `k` draws lands.
pub open spec fn any_lands(cells: Seq<Option<Tile>>, index: int, draws: Seq<Option<(Vector, Vector)>>, k: int) -> bool {
    exists|i: int| 0 <= i < k && #[trigger] lands(cells, index, draws, i)
}

/// Whether lava at `index` of a buffer can reach all eight cells around it.
pub open spec fn lava_reaches(cells: Seq<Option<Tile>>, index: int) -> bool {
    has_margin(index, cells.len() as int) && index + WORLD_WIDTH + 1 <= i32::MAX
}

/// The grid after lava at `index` has reacted with the given draws. At the
/// edge of the buffer, where not all eight cells exist, nothing happens.
pub open spec fn grid_after_sparks(
    cells: Seq<Option<Tile>>,
    index: int,
    lava: Tile,
    draws: Seq<Option<(Vector, Vector)>>,
) -> Seq<Option<Tile>> {
    if lava_reaches(cells, index) {
        after_sparks(cells, index, lava, draws, 8)
    } else {
        cells
    }
}

/// The lava after it has reacted with the given draws: staged to cool, where
/// it is cold enough, if it has thrown a spark, and else as it was.
pub open spec fn lava_after(lava: Tile, cells: Seq<Option<Tile>>, index: int, draws: Seq<Option<(Vector, Vector)>>) -> Tile {
    if lava_reaches(cells, index) && any_lands(cells, index, draws, 8) {
        cooled(lava)
    } else {
        lava
    }
}

/// Sparks land in empty cells around the lava and nowhere else: after the
/// first `k` draws every cell is as it was, or it was empty, lies round the
/// lava, and holds the spark of the draw that landed there; and the cells of
/// the later draws are as they were.
pub proof fn lemma_sparks_land_in_empty_cells(
    cells: Seq<Option<Tile>>,
    index: int,
    lava: Tile,
    draws: Seq<Option<(Vector, Vector)>>,
    k: int,
)
    requires
        0 <= k <= 8,
    ensures
        has_margin(index, cells.len() as int) ==> after_sparks(cells, index, lava, draws, k).len()
            == cells.len(),
        has_margin(index, cells.len() as int) ==> forall|j: int|
            0 <= j < cells.len() ==> #[trigger] after_sparks(cells, index, lava, draws, k)[j] == cells[j]
                || exists|i: int|
                0 <= i < k && spec_raw_neighbors(index)[i] == j && #[trigger] lands(
                    cells,
                    index,
                    draws,
                    i,
                ) && after_sparks(cells, index, lava, draws, k)[j] == Some(
                    spark(lava, draws[i].unwrap().0, draws[i].unwrap().1),
                ),
        has_margin(index, cells.len() as int) ==> forall|i: int|
            k <= i < 8 ==> after_sparks(cells, index, lava, draws, k)[#[trigger] spec_raw_neighbors(
                index,
            )[i]] == cells[spec_raw_neighbors(index)[i]],
    decreases k,
{
    if k > 0 {
        lemma_sparks_land_in_empty_cells(cells, index, lava, draws, k - 1);
        if has_margin(index, cells.len() as int) {
            crate::world_view::lemma_raw_neighbors_are_distinct_cells(index, cells.len() as int);
            let earlier = after_sparks(cells, index, lava, draws, k - 1);
            let now = after_sparks(cells, index, lava, draws, k);
            let at = spec_raw_neighbors(index)[k - 1];
            assert forall|j: int| 0 <= j < cells.len() implies #[trigger] now[j] == cells[j]
                || exists|i: int|
                0 <= i < k && spec_raw_neighbors(index)[i] == j && #[trigger] lands(
                    cells,
                    index,
                    draws,
                    i,
                ) && now[j] == Some(spark(lava, draws[i].unwrap().0, draws[i].unwrap().1)) by {
                if lands(cells, index, draws, k - 1) && j == at {
                    assert(now[j] == Some(
                        spark(lava, draws[k - 1].unwrap().0, draws[k - 1].unwrap().1),
                    ));
                } else {
                    assert(now[j] == earlier[j]);
                    if earlier[j] != cells[j] {
                        let i = choose|i: int|
                            0 <= i < k - 1 && spec_raw_neighbors(index)[i] == j && #[trigger] lands(
                                cells,
                                index,
                                draws,
                                i,
                            ) && earlier[j] == Some(
                                spark(lava, draws[i].unwrap().0, draws[i].unwrap().1),
                            );
                        assert(0 <= i < k && lands(cells, index, draws, i));
                    }
                }
            }
            assert forall|i: int| k <= i < 8 implies now[#[trigger] spec_raw_neighbors(index)[i]]
                == cells[spec_raw_neighbors(index)[i]] by {
                assert(spec_raw_neighbors(index)[i] != at);
                assert(earlier[spec_raw_neighbors(index)[i]] == cells[spec_raw_neighbors(index)[i]]);
            }
        }
    }
}

/// One reaction tick of lava, with the draws of chance given: into each
/// empty cell around the lava for which a spark is drawn, the spark is put,
/// in the order of the cells. Lava that has thrown a spark is staged to cool
/// where it is cold enough. No cell that holds a tile changes. At the edge
/// of the buffer, where not all eight cells exist, nothing happens.
pub fn lava_step(
    this: Tile,
    mut view: NeighborhoodView<'_, Option<Tile>>,
    draws: &[Option<(Vector, Vector)>; 8],
) -> (out: Option<Tile>)
    ensures
        out == Some(lava_after(this, view.cells(), view.index as int, draws@)),
        final(view.slice)@ == grid_after_sparks(view.cells(), view.index as int, this, draws@),
        final(view.slice)@.len() == view.cells().len(),
{
    let mut me = this;
    let ghost cells = view.cells();
    let ghost index = view.index as int;
    let ghost shown = view;
    if !view.surrounded() {
        return Some(me);
    }
    let around = view.neighbors();
    let mut thrown = false;
    proof {
        lemma_sparks_land_in_empty_cells(cells, index, this, draws@, 8);
    }
    let mut k: usize = 0;
    while k < 8
        invariant
            k <= 8,
            around@.len() == 8,
            view.index == index,
            has_margin(index, cells.len() as int),
            final(view.slice)@ == final(shown.slice)@,
            forall|j: int|
                0 <= j < 8 ==> (#[trigger] around@[j]).0 == spec_raw_neighbors(index)[j] && around@[j].0
                    < cells.len(),
            view.cells() == after_sparks(cells, index, this, draws@, k as int),
            thrown == any_lands(cells, index, draws@, k as int),
            me == if thrown {
                cooled(this)
            } else {
                this
            },
        decreases 8 - k,
    {
        let at = around[k];
        proof {
            lemma_sparks_land_in_empty_cells(cells, index, this, draws@, k as int);
            assert(view.cells()[spec_raw_neighbors(index)[k as int]] == cells[spec_raw_neighbors(
                index,
            )[k as int]]);
        }
        let ghost earlier = thrown;
        if view.index(at).is_none() {
            if let Some((position, velocity)) = draws[k] {
                let thrown_spark = make_spark(&this, position, velocity);
                let cell = view.index_mut(at);
                *cell = Some(thrown_spark);
                // Every spark gives the lava a chance to cool into rock.
                if this.temperature < LAVA_COOLS_TEMPERATURE {
                    me = this;
                    me.set_element(ElementId(ROCK_ID));
                }
                thrown = true;
            }
        }
        proof {
            assert(thrown == (earlier || lands(cells, index, draws@, k as int)));
            if any_lands(cells, index, draws@, k + 1) {
                let i = choose|i: int| 0 <= i < k + 1 && #[trigger] lands(cells, index, draws@, i);
                if i < k {
                    assert(any_lands(cells, index, draws@, k as int));
                }
            }
            if earlier {
                let i = choose|i: int| 0 <= i < k && #[trigger] lands(cells, index, draws@, i);
                assert(0 <= i < k + 1 && lands(cells, index, draws@, i));
            }
            assert(thrown == any_lands(cells, index, draws@, k + 1));
        }
        k += 1;
    }
    Some(me)
}

/// Lava's place in the catalog.
pub struct LavaSetup;

impl LavaSetup {
    pub fn build_element(&self) -> (e: Element)
        ensures
            e == spec_element(LAVA_ID),
    {
        lava()
    }

    pub fn get_id(&self) -> (id: ElementId)
        ensures
            id == ElementId(LAVA_ID),
    {
        ElementId(LAVA_ID)
    }
}

} // verus!
