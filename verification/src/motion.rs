//! Motion: velocities are added to the positions inside the cells, and a
//! position that leaves its cell asks for a move of the tile.

use vstd::prelude::*;
use std::collections::VecDeque;
use crate::element::{FIXED, FLUID};
use crate::periodic::{is_chain, takes_turn};
use crate::tile::{Tile, Vector};
use crate::world::{
    after_contact, collision_key, commit_cell, first_of, first_tile_of, is_collision, replaced,
    second_of, second_tile_of, Cells, Rule, World,
};
use crate::world_view::CollisionView;
use crate::{coords, in_bounds, point, spec_coords, spec_in_bounds, spec_point, WORLD_CELLS};

verus! {

/// The sum of a position and a velocity, wrapped round into the range of a
/// position.
pub open spec fn wrapped_sum(position: i8, velocity: i8) -> i8 {
    if position + velocity > i8::MAX {
        (position + velocity - 256) as i8
    } else if position + velocity < i8::MIN {
        (position + velocity + 256) as i8
    } else {
        (position + velocity) as i8
    }
}

/// Whether the sum of a position and a velocity leaves the range of a
/// position, which is when the tile leaves its cell.
pub open spec fn leaves_cell(position: i8, velocity: i8) -> bool {
    position + velocity > i8::MAX || position + velocity < i8::MIN
}

/// The sign of `v`: -1, 0 or 1.
pub open spec fn signum(v: i8) -> int {
    if v > 0 {
        1
    } else if v < 0 {
        -1
    } else {
        0
    }
}

/// Whether the tile takes part in motion: it is awake and not fixed.
pub open spec fn integrates(tile: Tile) -> bool {
    !tile.paused && !tile.flagged(FIXED)
}

/// The cell after its tile's velocity has been added to its position.
pub open spec fn after_integration(cell: Option<Tile>) -> Option<Tile> {
    match cell {
        Some(tile) => if integrates(tile) {
            Some(
                Tile {
                    position: Vector {
                        x: wrapped_sum(tile.position.x, tile.velocity.x),
                        y: wrapped_sum(tile.position.y, tile.velocity.y),
                    },
                    ..tile
                },
            )
        } else {
            cell
        },
        None => None,
    }
}

/// The step, in columns and rows, that the tile asks for: one cell along
/// each axis on which its position leaves the cell, in the direction of its
/// velocity.
pub open spec fn step_of(tile: Tile) -> (int, int) {
    (
        if leaves_cell(tile.position.x, tile.velocity.x) {
            signum(tile.velocity.x)
        } else {
            0
        },
        if leaves_cell(tile.position.y, tile.velocity.y) {
            signum(tile.velocity.y)
        } else {
            0
        },
    )
}

/// Whether the tile of this cell leaves its cell on some axis.
pub open spec fn asks_to_move(cell: Option<Tile>) -> bool {
    match cell {
        Some(tile) => integrates(tile) && (leaves_cell(tile.position.x, tile.velocity.x)
            || leaves_cell(tile.position.y, tile.velocity.y)),
        None => false,
    }
}

/// The move that the cell `i` asks for, as source and destination: none
/// where its tile stays in its cell, and none where the step would leave
/// the grid.
pub open spec fn planned_move(cells: Cells, i: usize) -> Option<(usize, usize)> {
    if asks_to_move(cells[i as int]) {
        let step = step_of(cells[i as int].unwrap());
        let x = spec_coords(i as int).0 + step.0;
        let y = spec_coords(i as int).1 + step.1;
        if spec_in_bounds(x, y) {
            Some((i, spec_point(x, y) as usize))
        } else {
            None
        }
    } else {
        None
    }
}

/// Whether a move by `step` joins the back of the queue: it goes up, or
/// straight to the left. Every other move joins the front.
pub open spec fn joins_back(step: (int, int)) -> bool {
    step.1 < 0 || (step.1 == 0 && step.0 < 0)
}

/// The queue of moves after the cells below `n` have been scanned in order.
///
/// Moves up or left are appended, moves down or right are put in front, so
/// that tiles that travel side by side do not run into each other.
pub open spec fn planned_queue(cells: Cells, n: nat) -> Seq<(usize, usize)>
    decreases n,
{
    if n == 0 {
        Seq::empty()
    } else {
        let earlier = planned_queue(cells, (n - 1) as nat);
        match planned_move(cells, (n - 1) as usize) {
            Some(planned) => if joins_back(step_of(cells[n - 1].unwrap())) {
                earlier.push(planned)
            } else {
                seq![planned] + earlier
            },
            None => earlier,
        }
    }
}

/// Whether some cell below `n` asks to move.
pub open spec fn any_asks_to_move(cells: Cells, n: nat) -> bool {
    exists|i: int| 0 <= i < n && asks_to_move(#[trigger] cells[i])
}

/// Every planned move leads from a cell of the grid to another one.
pub proof fn lemma_planned_moves_are_valid(cells: Cells, n: nat)
    requires
        n <= WORLD_CELLS,
    ensures
        forall|k: int|
            0 <= k < planned_queue(cells, n).len() ==> (#[trigger] planned_queue(cells, n)[k]).0
                < WORLD_CELLS && planned_queue(cells, n)[k].1 < WORLD_CELLS && planned_queue(
                cells,
                n,
            )[k].0 != planned_queue(cells, n)[k].1,
    decreases n,
{
    if n > 0 {
        lemma_planned_moves_are_valid(cells, (n - 1) as nat);
        let earlier = planned_queue(cells, (n - 1) as nat);
        match planned_move(cells, (n - 1) as usize) {
            Some(planned) => {
                let i = (n - 1) as int;
                let step = step_of(cells[i].unwrap());
                assert(step.0 != 0 || step.1 != 0);
                assert(planned.1 == i + step.0 + step.1 * 200);
                assert(planned.0 != planned.1);
                if joins_back(step) {
                } else {
                    assert forall|k: int| 0 <= k < planned_queue(cells, n).len() implies (
                    #[trigger] planned_queue(cells, n)[k]).0 < WORLD_CELLS && planned_queue(
                        cells,
                        n,
                    )[k].1 < WORLD_CELLS && planned_queue(cells, n)[k].0 != planned_queue(
                        cells,
                        n,
                    )[k].1 by {
                        if k > 0 {
                            assert(planned_queue(cells, n)[k] == earlier[k - 1]);
                        }
                    }
                }
            },
            None => {},
        }
    }
}

/// Adds a velocity to a position, wrapping round, and tells whether the
/// sum left the range.
fn add_to_position(position: i8, velocity: i8) -> (out: (i8, bool))
    ensures
        out.0 == wrapped_sum(position, velocity),
        out.1 == leaves_cell(position, velocity),
{
    let sum: i16 = position as i16 + velocity as i16;
    if sum > i8::MAX as i16 {
        ((sum - 256) as i8, true)
    } else if sum < i8::MIN as i16 {
        ((sum + 256) as i8, true)
    } else {
        (sum as i8, false)
    }
}

/// The sign of `v`.
fn sign_of(v: i8) -> (sign: i8)
    ensures
        sign == signum(v),
{
    if v > 0 {
        1
    } else if v < 0 {
        -1
    } else {
        0
    }
}

/// Adds every awake, free tile's velocity to its position, and queues a move
/// for each tile whose position has left its cell. Tells whether any tile
/// left its cell.
pub fn integrate_positions<
    R: Fn(Tile, Tile) -> (Option<Tile>, Option<Tile>),
    S: for <'a>Fn(Tile, Tile, CollisionView<'a, Option<Tile>>) -> (Option<Tile>, Option<Tile>),
>(world: &mut World<R, S>, motion_queue: &mut VecDeque<(usize, usize)>) -> (needs_update: bool)
    ensures
        final(world).keeps_tables(old(world)),
        forall|i: int|
            0 <= i < WORLD_CELLS ==> #[trigger] final(world).cells()[i] == after_integration(
                old(world).cells()[i],
            ),
        final(motion_queue)@ == planned_queue(old(world).cells(), WORLD_CELLS as nat),
        needs_update == any_asks_to_move(old(world).cells(), WORLD_CELLS as nat),
{
    let mut needs_update = false;
    motion_queue.clear();
    let mut i: usize = 0;
    proof {
        old(world).lemma_cell_count();
    }
    while i < WORLD_CELLS
        invariant
            i <= WORLD_CELLS,
            world.keeps_tables(old(world)),
            world.cells().len() == WORLD_CELLS,
            old(world).cells().len() == WORLD_CELLS,
            forall|k: int|
                0 <= k < i ==> #[trigger] world.cells()[k] == after_integration(old(world).cells()[k]),
            forall|k: int| i <= k < WORLD_CELLS ==> #[trigger] world.cells()[k] == old(world).cells()[k],
            motion_queue@ == planned_queue(old(world).cells(), i as nat),
            needs_update == any_asks_to_move(old(world).cells(), i as nat),
        decreases WORLD_CELLS - i,
    {
        let ghost before = world.cells();
        let ghost asked = any_asks_to_move(old(world).cells(), i as nat);
        let cell = world.index_mut(i);
        assert(*cell == old(world).cells()[i as int]);
        let mut planned: Option<(usize, usize)> = None;
        let mut to_back = false;
        let mut moves = false;
        if let Some(tile) = cell {
            if !tile.paused && !tile.has_flag(FIXED) {
                let (new_x, overflowed_x) = add_to_position(tile.position.x, tile.velocity.x);
                let (new_y, overflowed_y) = add_to_position(tile.position.y, tile.velocity.y);
                tile.position.x = new_x;
                tile.position.y = new_y;
                if overflowed_x || overflowed_y {
                    moves = true;
                    let delta_x = if overflowed_x {
                        sign_of(tile.velocity.x)
                    } else {
                        0
                    };
                    let delta_y = if overflowed_y {
                        sign_of(tile.velocity.y)
                    } else {
                        0
                    };
                    let (old_grid_x, old_grid_y) = coords(i);
                    let (new_grid_x, new_grid_y) = (
                        old_grid_x + delta_x as i32,
                        old_grid_y + delta_y as i32,
                    );
                    if in_bounds(new_grid_x, new_grid_y) {
                        planned = Some((i, point(new_grid_x, new_grid_y)));
                    }
                    // Trains of adjacent particles travel smoothly this way
                    // and do not knock each other.
                    to_back = delta_y < 0 || (delta_y == 0 && delta_x < 0);
                }
            }
        }
        if moves {
            needs_update = true;
        }
        if let Some(swap_pair) = planned {
            if to_back {
                motion_queue.push_back(swap_pair);
            } else {
                motion_queue.push_front(swap_pair);
            }
        }
        proof {
            assert(world.cells()[i as int] == after_integration(old(world).cells()[i as int]));
            assert(planned == planned_move(old(world).cells(), i));
            assert(moves == asks_to_move(old(world).cells()[i as int]));
            if moves {
                assert(any_asks_to_move(old(world).cells(), (i + 1) as nat));
            } else if asked {
                let j = choose|j: int| 0 <= j < i && asks_to_move(#[trigger] old(world).cells()[j]);
                assert(0 <= j < i + 1 && asks_to_move(old(world).cells()[j]));
            } else {
                assert forall|j: int| 0 <= j < i + 1 implies !asks_to_move(
                    #[trigger] old(world).cells()[j],
                ) by {}
            }
        }
        i += 1;
    }
    needs_update
}

/// The grid after every tile's velocity has been added to its position.
pub open spec fn integrated(cells: Cells) -> Cells {
    Seq::new(cells.len(), |i: int| after_integration(cells[i]))
}

/// Whether carrying out the moves of `queue`, one after the other and from
/// the front, may turn the grid `before` into the grid `after`: there is a
/// grid after each move that may follow the one before it.
pub open spec fn may_carry_out<
    R: Fn(Tile, Tile) -> (Option<Tile>, Option<Tile>),
    S: for <'a>Fn(Tile, Tile, CollisionView<'a, Option<Tile>>) -> (Option<Tile>, Option<Tile>),
>(world: &World<R, S>, queue: Seq<(usize, usize)>, before: Cells, after: Cells) -> bool {
    exists|grids: Seq<Cells>|
        {
            &&& grids.len() == queue.len() + 1
            &&& grids[0] == before
            &&& grids[queue.len() as int] == after
            &&& forall|k: int|
                0 <= k < queue.len() ==> world.may_follow(
                    #[trigger] grids[k],
                    queue[k].0,
                    queue[k].1,
                    grids[k + 1],
                )
        }
}

/// Advances every tile by its velocity, then carries out, one after the
/// other and from the front of the queue, the moves that this asks for.
/// Tells whether any tile left its cell.
///
/// The queue is left holding the moves that were carried out. There is a
/// grid before each move, and each move makes the next grid of it as
/// `World::move_particle` says: where a side effect is the rule of a
/// collision, it is handed a view of the grid after the contact, and the
/// next grid is what it left through the view, with the two tiles replaced
/// by what it returned.
pub fn apply_velocity<
    R: Fn(Tile, Tile) -> (Option<Tile>, Option<Tile>),
    S: for <'a>Fn(Tile, Tile, CollisionView<'a, Option<Tile>>) -> (Option<Tile>, Option<Tile>),
>(world: &mut World<R, S>, motion_queue: &mut VecDeque<(usize, usize)>) -> (needs_update: bool)
    requires
        old(world).wf(),
    ensures
        final(world).keeps_tables(old(world)),
        final(motion_queue)@ == planned_queue(old(world).cells(), WORLD_CELLS as nat),
        needs_update == any_asks_to_move(old(world).cells(), WORLD_CELLS as nat),
        may_carry_out(
            old(world),
            final(motion_queue)@,
            integrated(old(world).cells()),
            final(world).cells(),
        ),
        !needs_update ==> final(world).cells() == integrated(old(world).cells()),
        exists|grids: Seq<Cells>|
            #[trigger] is_chain(
                grids,
                integrated(old(world).cells()),
                final(motion_queue)@.len() as int,
            ) && grids[final(motion_queue)@.len() as int] == final(world).cells() && forall|k: int|
                #[trigger] takes_turn(
                    k,
                    final(motion_queue)@.len() as int,
                ) ==> exists|push_through: bool|
                    {
                        let hit = #[trigger] after_contact(
                            grids[k],
                            final(motion_queue)@[k].0,
                            final(motion_queue)@[k].1,
                            push_through,
                        );
                        let source = final(motion_queue)@[k].0;
                        let destination = final(motion_queue)@[k].1;
                        let rule = old(world).rule_on(hit, source, destination);
                        let first_index = first_of(hit, source, destination);
                        let second_index = second_of(hit, source, destination);
                        let first = first_tile_of(hit, source, destination);
                        let second = second_tile_of(hit, source, destination);
                        let key = collision_key(hit, source, destination);
                        let table = old(world).flag_reactions();
                        &&& push_through ==> is_collision(grids[k], source, destination)
                            && grids[k][destination as int].unwrap().flagged(FLUID)
                        &&& !is_collision(grids[k], source, destination) ==> grids[k + 1] == hit
                        &&& is_collision(grids[k], source, destination) ==> {
                            &&& rule == Rule::SideEffect ==> exists|
                                view: CollisionView<'_, Option<Tile>>,
                                out: (Option<Tile>, Option<Tile>),
                            |
                                view.cells() == hit && view.first_index == first_index && view.second_index
                                    == second_index && call_ensures(
                                    old(world).side_effects()[key],
                                    (first, second, view),
                                    out,
                                ) && grids[k + 1] == replaced(
                                    final(view.slice)@,
                                    first_index,
                                    second_index,
                                    commit_cell(out.0),
                                    commit_cell(out.1),
                                )
                            &&& rule == Rule::Reaction ==> exists|out: (Option<Tile>, Option<Tile>)|
                                call_ensures(old(world).reactions()[key], (first, second), out) && grids[k + 1] == replaced(
                                    hit,
                                    first_index,
                                    second_index,
                                    commit_cell(out.0),
                                    commit_cell(out.1),
                                )
                            &&& rule == Rule::SecondWithFlags ==> exists|out: (Option<Tile>, Option<Tile>)|
                                call_ensures(
                                    table.lookup(first.element().flags, second.element().id).unwrap(),
                                    (second, first),
                                    out,
                                ) && grids[k + 1] == replaced(hit, first_index, second_index, out.1, out.0)
                            &&& rule == Rule::FirstWithFlags ==> exists|out: (Option<Tile>, Option<Tile>)|
                                call_ensures(
                                    table.lookup(second.element().flags, first.element().id).unwrap(),
                                    (first, second),
                                    out,
                                ) && grids[k + 1] == replaced(hit, first_index, second_index, out.0, out.1)
                            &&& rule == Rule::Nothing ==> grids[k + 1] == hit
                        }
                    },
{
    let needs_update = integrate_positions(world, motion_queue);
    proof {
        old(world).lemma_cell_count();
        world.lemma_cell_count();
        lemma_planned_moves_are_valid(old(world).cells(), WORLD_CELLS as nat);
        lemma_still_queue_is_empty(old(world).cells(), WORLD_CELLS as nat);
        assert(world.cells() =~= integrated(old(world).cells()));
    }
    let ghost mut grids: Seq<Cells> = seq![world.cells()];
    let mut k: usize = 0;
    while k < motion_queue.len()
        invariant
            k <= motion_queue@.len(),
            world.wf(),
            world.keeps_tables(old(world)),
            motion_queue@ == planned_queue(old(world).cells(), WORLD_CELLS as nat),
            forall|j: int|
                0 <= j < motion_queue@.len() ==> (#[trigger] motion_queue@[j]).0 < WORLD_CELLS
                    && motion_queue@[j].1 < WORLD_CELLS && motion_queue@[j].0 != motion_queue@[j].1,
            grids.len() == k + 1,
            grids[0] == integrated(old(world).cells()),
            grids[k as int] == world.cells(),
            forall|j: int|
                #[trigger] takes_turn(j, k as int) ==> old(world).may_follow(
                    grids[j],
                    motion_queue@[j].0,
                    motion_queue@[j].1,
                    grids[j + 1],
                ),
            forall|j: int|
                #[trigger] takes_turn(j, k as int) ==> exists|push_through: bool|
                    {
                        let hit = #[trigger] after_contact(
                            grids[j],
                            motion_queue@[j].0,
                            motion_queue@[j].1,
                            push_through,
                        );
                        let source = motion_queue@[j].0;
                        let destination = motion_queue@[j].1;
                        let rule = old(world).rule_on(hit, source, destination);
                        let first_index = first_of(hit, source, destination);
                        let second_index = second_of(hit, source, destination);
                        let first = first_tile_of(hit, source, destination);
                        let second = second_tile_of(hit, source, destination);
                        let key = collision_key(hit, source, destination);
                        let table = old(world).flag_reactions();
                        &&& push_through ==> is_collision(grids[j], source, destination)
                            && grids[j][destination as int].unwrap().flagged(FLUID)
                        &&& !is_collision(grids[j], source, destination) ==> grids[j + 1] == hit
                        &&& is_collision(grids[j], source, destination) ==> {
                            &&& rule == Rule::SideEffect ==> exists|
                                view: CollisionView<'_, Option<Tile>>,
                                out: (Option<Tile>, Option<Tile>),
                            |
                                view.cells() == hit && view.first_index == first_index && view.second_index
                                    == second_index && call_ensures(
                                    old(world).side_effects()[key],
                                    (first, second, view),
                                    out,
                                ) && grids[j + 1] == replaced(
                                    final(view.slice)@,
                                    first_index,
                                    second_index,
                                    commit_cell(out.0),
                                    commit_cell(out.1),
                                )
                            &&& rule == Rule::Reaction ==> exists|out: (Option<Tile>, Option<Tile>)|
                                call_ensures(old(world).reactions()[key], (first, second), out) && grids[j + 1] == replaced(
                                    hit,
                                    first_index,
                                    second_index,
                                    commit_cell(out.0),
                                    commit_cell(out.1),
                                )
                            &&& rule == Rule::SecondWithFlags ==> exists|out: (Option<Tile>, Option<Tile>)|
                                call_ensures(
                                    table.lookup(first.element().flags, second.element().id).unwrap(),
                                    (second, first),
                                    out,
                                ) && grids[j + 1] == replaced(hit, first_index, second_index, out.1, out.0)
                            &&& rule == Rule::FirstWithFlags ==> exists|out: (Option<Tile>, Option<Tile>)|
                                call_ensures(
                                    table.lookup(second.element().flags, first.element().id).unwrap(),
                                    (first, second),
                                    out,
                                ) && grids[j + 1] == replaced(hit, first_index, second_index, out.0, out.1)
                            &&& rule == Rule::Nothing ==> grids[j + 1] == hit
                        }
                    },
        decreases motion_queue@.len() - k,
    {
        let (source, destination) = motion_queue[k];
        let ghost before = world.cells();
        let ghost earlier = grids;
        let ghost stepping = *world;
        world.move_particle(source, destination);
        proof {
            grids = earlier.push(world.cells());
            assert(stepping.may_follow(before, source, destination, world.cells()));
            assert(old(world).may_follow(before, source, destination, world.cells()));
            assert forall|j: int| #[trigger] takes_turn(j, k + 1) implies old(world).may_follow(
                grids[j],
                motion_queue@[j].0,
                motion_queue@[j].1,
                grids[j + 1],
            ) by {
                if j < k {
                    assert(takes_turn(j, k as int));
                    assert(grids[j] == earlier[j]);
                    assert(grids[j + 1] == earlier[j + 1]);
                }
            }
            assert(grids[k as int] == before);
            assert(grids[k + 1] == world.cells());
            assert forall|j: int| #[trigger] takes_turn(j, k + 1) implies exists|push_through: bool|
                {
                    let hit = #[trigger] after_contact(
                        grids[j],
                        motion_queue@[j].0,
                        motion_queue@[j].1,
                        push_through,
                    );
                    let source = motion_queue@[j].0;
                    let destination = motion_queue@[j].1;
                    let rule = old(world).rule_on(hit, source, destination);
                    let first_index = first_of(hit, source, destination);
                    let second_index = second_of(hit, source, destination);
                    let first = first_tile_of(hit, source, destination);
                    let second = second_tile_of(hit, source, destination);
                    let key = collision_key(hit, source, destination);
                    let table = old(world).flag_reactions();
                    &&& push_through ==> is_collision(grids[j], source, destination)
                        && grids[j][destination as int].unwrap().flagged(FLUID)
                    &&& !is_collision(grids[j], source, destination) ==> grids[j + 1] == hit
                    &&& is_collision(grids[j], source, destination) ==> {
                        &&& rule == Rule::SideEffect ==> exists|
                            view: CollisionView<'_, Option<Tile>>,
                            out: (Option<Tile>, Option<Tile>),
                        |
                            view.cells() == hit && view.first_index == first_index && view.second_index
                                == second_index && call_ensures(
                                old(world).side_effects()[key],
                                (first, second, view),
                                out,
                            ) && grids[j + 1] == replaced(
                                final(view.slice)@,
                                first_index,
                                second_index,
                                commit_cell(out.0),
                                commit_cell(out.1),
                            )
                        &&& rule == Rule::Reaction ==> exists|out: (Option<Tile>, Option<Tile>)|
                            call_ensures(old(world).reactions()[key], (first, second), out) && grids[j + 1] == replaced(
                                hit,
                                first_index,
                                second_index,
                                commit_cell(out.0),
                                commit_cell(out.1),
                            )
                        &&& rule == Rule::SecondWithFlags ==> exists|out: (Option<Tile>, Option<Tile>)|
                            call_ensures(
                                table.lookup(first.element().flags, second.element().id).unwrap(),
                                (second, first),
                                out,
                            ) && grids[j + 1] == replaced(hit, first_index, second_index, out.1, out.0)
                        &&& rule == Rule::FirstWithFlags ==> exists|out: (Option<Tile>, Option<Tile>)|
                            call_ensures(
                                table.lookup(second.element().flags, first.element().id).unwrap(),
                                (first, second),
                                out,
                            ) && grids[j + 1] == replaced(hit, first_index, second_index, out.0, out.1)
                        &&& rule == Rule::Nothing ==> grids[j + 1] == hit
                    }
                } by {
                if j < k {
                    assert(takes_turn(j, k as int));
                    assert(grids[j] == earlier[j]);
                    assert(grids[j + 1] == earlier[j + 1]);
                }
            }
        }
        k += 1;
    }
    proof {
        assert(is_chain(grids, integrated(old(world).cells()), motion_queue@.len() as int));
        assert forall|j: int| 0 <= j < motion_queue@.len() implies old(world).may_follow(
            #[trigger] grids[j],
            motion_queue@[j].0,
            motion_queue@[j].1,
            grids[j + 1],
        ) by {
            assert(takes_turn(j, motion_queue@.len() as int));
        }
    }
    needs_update
}

/// Where no cell asks to move, no move is planned.
pub proof fn lemma_still_queue_is_empty(cells: Cells, n: nat)
    ensures
        !any_asks_to_move(cells, n) ==> planned_queue(cells, n).len() == 0,
    decreases n,
{
    if n > 0 {
        lemma_still_queue_is_empty(cells, (n - 1) as nat);
        if !any_asks_to_move(cells, n) {
            assert(!asks_to_move(cells[n - 1]));
            assert forall|i: int| 0 <= i < n - 1 implies !asks_to_move(#[trigger] cells[i]) by {}
        }
    }
}

} // verus!
