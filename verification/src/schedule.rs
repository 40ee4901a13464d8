//! The order of the passes of a tick, and the ticks of a frame.

use vstd::prelude::*;
use std::collections::VecDeque;
use crate::element::{PeriodicReaction, FLUID};
use crate::motion::{any_asks_to_move, apply_velocity, integrated, may_carry_out, planned_queue};
use crate::periodic::{committed_grid, is_chain, may_pass, may_react, run_hook, takes_turn};
use crate::tile::Tile;
use crate::world::{
    after_contact, after_gravity, after_pause, collision_key, commit_cell, first_of, first_tile_of,
    is_collision, replaced, second_of, second_tile_of, Cells, Rule, World,
};
use crate::world_view::{CollisionView, NeighborhoodView};
use crate::{GRAVITY_PERIOD, REACTION_PERIOD, UPDATES_PER_FRAME, WORLD_CELLS};

verus! {

/// Whether gravity acts on the tick with number `turn`.
pub open spec fn gravity_acts(turn: i32) -> bool {
    turn as int % GRAVITY_PERIOD as int == 0
}

/// Whether the periodic reactions run on the tick with number `turn`.
pub open spec fn reactions_run(turn: i32) -> bool {
    turn as int % REACTION_PERIOD as int == 0
}

/// The number of the tick after `turn`. The count starts over after the
/// last number.
pub open spec fn next_turn(turn: i32) -> i32 {
    if turn == i32::MAX {
        0
    } else {
        (turn + 1) as i32
    }
}

/// The grid after the sleep pass.
pub open spec fn after_pause_pass(cells: Cells) -> Cells {
    Seq::new(cells.len(), |i: int| after_pause(cells, i as usize))
}

/// The grid after gravity has acted on every tile.
pub open spec fn after_gravity_pass(cells: Cells) -> Cells {
    Seq::new(cells.len(), |i: int| after_gravity(cells[i]))
}

/// The grid on the tick `turn` after the sleep pass and, if it acts,
/// gravity.
pub open spec fn before_reactions(cells: Cells, turn: i32) -> Cells {
    if gravity_acts(turn) {
        after_gravity_pass(after_pause_pass(cells))
    } else {
        after_pause_pass(cells)
    }
}

/// Whether the tick `turn` may turn the grid `before` into the grid `after`
/// and leave `queue` behind.
///
/// The sleep pass comes first, then gravity on its ticks. On their ticks
/// the periodic reactions pass over the grid. Then every tile is advanced
/// by its velocity, and the moves that this asks for, which make up the
/// queue, are carried out.
pub open spec fn may_tick<
    R: Fn(Tile, Tile) -> (Option<Tile>, Option<Tile>),
    S: for <'a>Fn(Tile, Tile, CollisionView<'a, Option<Tile>>) -> (Option<Tile>, Option<Tile>),
>(world: &World<R, S>, before: Cells, turn: i32, queue: Seq<(usize, usize)>, after: Cells) -> bool {
    exists|reacted: Cells|
        {
            &&& if reactions_run(turn) {
                may_pass(before_reactions(before, turn), reacted)
            } else {
                reacted == before_reactions(before, turn)
            }
            &&& queue == #[trigger] planned_queue(reacted, WORLD_CELLS as nat)
            &&& may_carry_out(world, queue, integrated(reacted), after)
        }
}

/// Runs the sleep pass and, on its ticks, gravity.
fn settle<
    R: Fn(Tile, Tile) -> (Option<Tile>, Option<Tile>),
    S: for <'a>Fn(Tile, Tile, CollisionView<'a, Option<Tile>>) -> (Option<Tile>, Option<Tile>),
>(world: &mut World<R, S>, turn: i32)
    ensures
        final(world).keeps_tables(old(world)),
        final(world).cells() == before_reactions(old(world).cells(), turn),
{
    proof {
        old(world).lemma_cell_count();
    }
    world.pause_particles();
    proof {
        world.lemma_cell_count();
        assert(world.cells() =~= after_pause_pass(old(world).cells()));
    }
    if turn % GRAVITY_PERIOD == 0 {
        let ghost paused = world.cells();
        world.apply_gravity();
        proof {
            world.lemma_cell_count();
            assert(world.cells() =~= after_gravity_pass(paused));
        }
    }
}

/// Runs the periodic reactions on their ticks.
fn react<
    R: Fn(Tile, Tile) -> (Option<Tile>, Option<Tile>),
    S: for <'a>Fn(Tile, Tile, CollisionView<'a, Option<Tile>>) -> (Option<Tile>, Option<Tile>),
>(world: &mut World<R, S>, turn: i32)
    ensures
        final(world).keeps_tables(old(world)),
        if reactions_run(turn) {
            may_pass(old(world).cells(), final(world).cells())
        } else {
            final(world).cells() == old(world).cells()
        },
        reactions_run(turn) ==> exists|turns: Seq<Cells>|
                #[trigger] is_chain(
                    turns,
                    old(world).cells(),
                    WORLD_CELLS as int,
                ) && final(world).cells() == committed_grid(turns[WORLD_CELLS as int]) && forall|k: int|
                    #[trigger] takes_turn(k, WORLD_CELLS as int) ==> match turns[k][k] {
                        Some(tile) => match tile.element().periodic_reaction {
                            PeriodicReaction::Custom(hook) => exists|
                                view: NeighborhoodView<'_, Option<Tile>>,
                                out: Option<Tile>,
                            |
                                view.cells() == turns[k] && view.index == k && call_ensures(
                                    run_hook,
                                    (hook, tile, view),
                                    out,
                                ) && turns[k + 1] == final(view.slice)@.update(k, out),
                            _ => may_react(turns[k], k as usize, turns[k + 1]),
                        },
                        None => turns[k + 1] == turns[k],
                    },
{
    if turn % REACTION_PERIOD == 0 {
        world.apply_periodic_reactions();
    }
}

/// Advances the world by one tick and gives the number of the next tick.
///
/// The sleep pass comes first, then gravity on its ticks. On their ticks
/// the periodic reactions pass over the grid, turn by turn as
/// `World::apply_periodic_reactions` says, and leave the grid `reacted`.
/// Then every tile is advanced by its velocity, and the moves that this
/// asks for, which make up the queue, are carried out one after the other
/// as `World::move_particle` says. On a tick without periodic reactions on
/// which no tile leaves its cell, the grid ends exactly as the passes say.
pub fn tick<
    R: Fn(Tile, Tile) -> (Option<Tile>, Option<Tile>),
    S: for <'a>Fn(Tile, Tile, CollisionView<'a, Option<Tile>>) -> (Option<Tile>, Option<Tile>),
>(world: &mut World<R, S>, motion_queue: &mut VecDeque<(usize, usize)>, turn: i32) -> (next: i32)
    requires
        old(world).wf(),
    ensures
        final(world).wf(),
        final(world).keeps_tables(old(world)),
        next == next_turn(turn),
        may_tick(old(world), old(world).cells(), turn, final(motion_queue)@, final(world).cells()),
        !reactions_run(turn) && !any_asks_to_move(
            before_reactions(old(world).cells(), turn),
            WORLD_CELLS as nat,
        ) ==> final(world).cells() == integrated(before_reactions(old(world).cells(), turn)),
        exists|reacted: Cells|
            final(motion_queue)@ == #[trigger] planned_queue(reacted, WORLD_CELLS as nat) && (if reactions_run(
                turn,
            ) {
                exists|turns: Seq<Cells>|
                    #[trigger] is_chain(
                        turns,
                        before_reactions(old(world).cells(), turn),
                        WORLD_CELLS as int,
                    ) && reacted == committed_grid(turns[WORLD_CELLS as int]) && forall|k: int|
                        #[trigger] takes_turn(k, WORLD_CELLS as int) ==> match turns[k][k] {
                            Some(tile) => match tile.element().periodic_reaction {
                                PeriodicReaction::Custom(hook) => exists|
                                    view: NeighborhoodView<'_, Option<Tile>>,
                                    out: Option<Tile>,
                                |
                                    view.cells() == turns[k] && view.index == k && call_ensures(
                                        run_hook,
                                        (hook, tile, view),
                                        out,
                                    ) && turns[k + 1] == final(view.slice)@.update(k, out),
                                _ => may_react(turns[k], k as usize, turns[k + 1]),
                            },
                            None => turns[k + 1] == turns[k],
                        }
            } else {
                reacted == before_reactions(old(world).cells(), turn)
            }) && exists|grids: Seq<Cells>|
                #[trigger] is_chain(
                    grids,
                    integrated(reacted),
                    final(motion_queue)@.len() as int,
                ) && grids[final(motion_queue)@.len() as int] == final(world).cells() && forall|k: int|
                    #[trigger] takes_turn(k, final(motion_queue)@.len() as int) ==> exists|push_through: bool|
                        {
                            let hit = #[trigger] after_contact(
                                grids[k],
                                final(motion_queue)@[k].0,
                                final(motion_queue)@[k].1,
                                push_through,
                            );
                            let source = final(motion_queue)@[k].0;
                            let destination = final(motion_queue)@[k].1;
                            let rule = old(world).rule_on(hit, source, destination);
                            let first_index = first_of(hit, source, destination);
                            let second_index = second_of(hit, source, destination);
                            let first = first_tile_of(hit, source, destination);
                            let second = second_tile_of(hit, source, destination);
                            let key = collision_key(hit, source, destination);
                            let table = old(world).flag_reactions();
                            &&& push_through ==> is_collision(grids[k], source, destination)
                                && grids[k][destination as int].unwrap().flagged(FLUID)
                            &&& !is_collision(grids[k], source, destination) ==> grids[k + 1] == hit
                            &&& is_collision(grids[k], source, destination) ==> {
                                &&& rule == Rule::SideEffect ==> exists|
                                    view: CollisionView<'_, Option<Tile>>,
                                    out: (Option<Tile>, Option<Tile>),
                                |
                                    view.cells() == hit && view.first_index == first_index && view.second_index
                                        == second_index && call_ensures(
                                        old(world).side_effects()[key],
                                        (first, second, view),
                                        out,
                                    ) && grids[k + 1] == replaced(
                                        final(view.slice)@,
                                        first_index,
                                        second_index,
                                        commit_cell(out.0),
                                        commit_cell(out.1),
                                    )
                                &&& rule == Rule::Reaction ==> exists|out: (Option<Tile>, Option<Tile>)|
                                    call_ensures(old(world).reactions()[key], (first, second), out) && grids[k + 1] == replaced(
                                        hit,
                                        first_index,
                                        second_index,
                                        commit_cell(out.0),
                                        commit_cell(out.1),
                                    )
                                &&& rule == Rule::SecondWithFlags ==> exists|out: (Option<Tile>, Option<Tile>)|
                                    call_ensures(
                                        table.lookup(first.element().flags, second.element().id).unwrap(),
                                        (second, first),
                                        out,
                                    ) && grids[k + 1] == replaced(hit, first_index, second_index, out.1, out.0)
                                &&& rule == Rule::FirstWithFlags ==> exists|out: (Option<Tile>, Option<Tile>)|
                                    call_ensures(
                                        table.lookup(second.element().flags, first.element().id).unwrap(),
                                        (first, second),
                                        out,
                                    ) && grids[k + 1] == replaced(hit, first_index, second_index, out.0, out.1)
                                &&& rule == Rule::Nothing ==> grids[k + 1] == hit
                            }
                        },
{
    settle(world, turn);
    react(world, turn);
    let ghost reacted = world.cells();
    let ghost stepping = *world;
    apply_velocity(world, motion_queue);
    proof {
        lemma_tables_decide(&stepping, old(world), motion_queue@, integrated(reacted), world.cells());
        assert(motion_queue@ == planned_queue(reacted, WORLD_CELLS as nat));
    }
    if turn == i32::MAX {
        0
    } else {
        turn + 1
    }
}

/// What the moves of a queue may do depends on the reactions of the world
/// alone, not on its grid.
pub proof fn lemma_tables_decide<
    R: Fn(Tile, Tile) -> (Option<Tile>, Option<Tile>),
    S: for <'a>Fn(Tile, Tile, CollisionView<'a, Option<Tile>>) -> (Option<Tile>, Option<Tile>),
>(this: &World<R, S>, that: &World<R, S>, queue: Seq<(usize, usize)>, before: Cells, after: Cells)
    requires
        this.reactions() == that.reactions(),
        this.side_effects() == that.side_effects(),
        this.flag_reactions() == that.flag_reactions(),
        may_carry_out(this, queue, before, after),
    ensures
        may_carry_out(that, queue, before, after),
{
    let grids = choose|grids: Seq<Cells>|
        {
            &&& grids.len() == queue.len() + 1
            &&& grids[0] == before
            &&& grids[queue.len() as int] == after
            &&& forall|k: int|
                0 <= k < queue.len() ==> this.may_follow(
                    #[trigger] grids[k],
                    queue[k].0,
                    queue[k].1,
                    grids[k + 1],
                )
        };
    assert forall|k: int| 0 <= k < queue.len() implies that.may_follow(
        #[trigger] grids[k],
        queue[k].0,
        queue[k].1,
        grids[k + 1],
    ) by {
        assert(this.may_follow(grids[k], queue[k].0, queue[k].1, grids[k + 1]));
    }
}

/// The number of the tick that comes `count` ticks after `turn`.
pub open spec fn turn_after(turn: i32, count: nat) -> i32
    decreases count,
{
    if count == 0 {
        turn
    } else {
        next_turn(turn_after(turn, (count - 1) as nat))
    }
}

/// Whether `count` ticks from the tick `turn` on may turn the grid `before`
/// into the grid `after`: there is a grid after each tick that the tick may
/// have made of the one before it.
pub open spec fn may_run<
    R: Fn(Tile, Tile) -> (Option<Tile>, Option<Tile>),
    S: for <'a>Fn(Tile, Tile, CollisionView<'a, Option<Tile>>) -> (Option<Tile>, Option<Tile>),
>(world: &World<R, S>, before: Cells, turn: i32, count: nat, after: Cells) -> bool {
    exists|grids: Seq<Cells>, queues: Seq<Seq<(usize, usize)>>|
        {
            &&& grids.len() == count + 1
            &&& queues.len() == count
            &&& grids[0] == before
            &&& grids[count as int] == after
            &&& forall|k: int|
                0 <= k < count ==> may_tick(
                    world,
                    #[trigger] grids[k],
                    turn_after(turn, k as nat),
                    queues[k],
                    grids[k + 1],
                )
        }
}

/// Whether `states` holds the grid `first`, then one grid after each tick
/// of a frame, the last of them `last`, and `queues` the queue that each tick
/// left behind.
pub open spec fn is_run(
    states: Seq<Cells>,
    queues: Seq<Seq<(usize, usize)>>,
    first: Cells,
    last: Cells,
) -> bool {
    &&& states.len() == UPDATES_PER_FRAME + 1
    &&& queues.len() == UPDATES_PER_FRAME
    &&& states[0] == first
    &&& states[UPDATES_PER_FRAME as int] == last
}

/// Advances the world by the ticks of one frame, and gives the number of the
/// tick that comes next.
///
/// There is a grid after each tick, and each tick makes it of the grid
/// before as `tick` says.
#[verifier::rlimit(100)]
pub fn update<
    R: Fn(Tile, Tile) -> (Option<Tile>, Option<Tile>),
    S: for <'a>Fn(Tile, Tile, CollisionView<'a, Option<Tile>>) -> (Option<Tile>, Option<Tile>),
>(world: &mut World<R, S>, motion_queue: &mut VecDeque<(usize, usize)>, turn: i32) -> (next: i32)
    requires
        old(world).wf(),
    ensures
        final(world).wf(),
        final(world).keeps_tables(old(world)),
        next == turn_after(turn, UPDATES_PER_FRAME as nat),
        may_run(old(world), old(world).cells(), turn, UPDATES_PER_FRAME as nat, final(world).cells()),
        exists|states: Seq<Cells>, queues: Seq<Seq<(usize, usize)>>|
            #[trigger] is_run(states, queues, old(world).cells(), final(world).cells()) && forall|t: int|
                #[trigger] takes_turn(t, UPDATES_PER_FRAME as int) ==> exists|reacted: Cells|
                    queues[t] == #[trigger] planned_queue(reacted, WORLD_CELLS as nat) && (if reactions_run(
                        turn_after(turn, t as nat),
                    ) {
                        exists|turns: Seq<Cells>|
                            #[trigger] is_chain(
                                turns,
                                before_reactions(states[t], turn_after(turn, t as nat)),
                                WORLD_CELLS as int,
                            ) && reacted == committed_grid(turns[WORLD_CELLS as int]) && forall|k: int|
                                #[trigger] takes_turn(k, WORLD_CELLS as int) ==> match turns[k][k] {
                                    Some(tile) => match tile.element().periodic_reaction {
                                        PeriodicReaction::Custom(hook) => exists|
                                            view: NeighborhoodView<'_, Option<Tile>>,
                                            out: Option<Tile>,
                                        |
                                            view.cells() == turns[k] && view.index == k && call_ensures(
                                                run_hook,
                                                (hook, tile, view),
                                                out,
                                            ) && turns[k + 1] == final(view.slice)@.update(k, out),
                                        _ => may_react(turns[k], k as usize, turns[k + 1]),
                                    },
                                    None => turns[k + 1] == turns[k],
                                }
                    } else {
                        reacted == before_reactions(states[t], turn_after(turn, t as nat))
                    }) && exists|grids: Seq<Cells>|
                        #[trigger] is_chain(
                            grids,
                            integrated(reacted),
                            queues[t].len() as int,
                        ) && grids[queues[t].len() as int] == states[t + 1] && forall|k: int|
                            #[trigger] takes_turn(k, queues[t].len() as int) ==> exists|push_through: bool|
                                {
                                    let hit = #[trigger] after_contact(
                                        grids[k],
                                        queues[t][k].0,
                                        queues[t][k].1,
                                        push_through,
                                    );
                                    let source = queues[t][k].0;
                                    let destination = queues[t][k].1;
                                    let rule = old(world).rule_on(hit, source, destination);
                                    let first_index = first_of(hit, source, destination);
                                    let second_index = second_of(hit, source, destination);
                                    let first = first_tile_of(hit, source, destination);
                                    let second = second_tile_of(hit, source, destination);
                                    let key = collision_key(hit, source, destination);
                                    let table = old(world).flag_reactions();
                                    &&& push_through ==> is_collision(grids[k], source, destination)
                                        && grids[k][destination as int].unwrap().flagged(FLUID)
                                    &&& !is_collision(grids[k], source, destination) ==> grids[k + 1] == hit
                                    &&& is_collision(grids[k], source, destination) ==> {
                                        &&& rule == Rule::SideEffect ==> exists|
                                            view: CollisionView<'_, Option<Tile>>,
                                            out: (Option<Tile>, Option<Tile>),
                                        |
                                            view.cells() == hit && view.first_index == first_index && view.second_index
                                                == second_index && call_ensures(
                                                old(world).side_effects()[key],
                                                (first, second, view),
                                                out,
                                            ) && grids[k + 1] == replaced(
                                                final(view.slice)@,
                                                first_index,
                                                second_index,
                                                commit_cell(out.0),
                                                commit_cell(out.1),
                                            )
                                        &&& rule == Rule::Reaction ==> exists|out: (Option<Tile>, Option<Tile>)|
                                            call_ensures(old(world).reactions()[key], (first, second), out) && grids[k + 1] == replaced(
                                                hit,
                                                first_index,
                                                second_index,
                                                commit_cell(out.0),
                                                commit_cell(out.1),
                                            )
                                        &&& rule == Rule::SecondWithFlags ==> exists|out: (Option<Tile>, Option<Tile>)|
                                            call_ensures(
                                                table.lookup(first.element().flags, second.element().id).unwrap(),
                                                (second, first),
                                                out,
                                            ) && grids[k + 1] == replaced(hit, first_index, second_index, out.1, out.0)
                                        &&& rule == Rule::FirstWithFlags ==> exists|out: (Option<Tile>, Option<Tile>)|
                                            call_ensures(
                                                table.lookup(second.element().flags, first.element().id).unwrap(),
                                                (first, second),
                                                out,
                                            ) && grids[k + 1] == replaced(hit, first_index, second_index, out.0, out.1)
                                        &&& rule == Rule::Nothing ==> grids[k + 1] == hit
                                    }
                                },
{
    let mut now = turn;
    let mut i: i32 = 0;
    let ghost mut states: Seq<Cells> = seq![world.cells()];
    let ghost mut queues: Seq<Seq<(usize, usize)>> = Seq::empty();
    while i < UPDATES_PER_FRAME
        invariant
            0 <= i <= UPDATES_PER_FRAME,
            world.wf(),
            world.keeps_tables(old(world)),
            now == turn_after(turn, i as nat),
            states.len() == i + 1,
            queues.len() == i,
            states[0] == old(world).cells(),
            states[i as int] == world.cells(),
            forall|k: int|
                #[trigger] takes_turn(k, i as int) ==> may_tick(
                    old(world),
                    states[k],
                    turn_after(turn, k as nat),
                    queues[k],
                    states[k + 1],
                ),
            forall|t: int|
                #[trigger] takes_turn(t, i as int) ==> exists|reacted: Cells|
                    queues[t] == #[trigger] planned_queue(reacted, WORLD_CELLS as nat) && (if reactions_run(
                        turn_after(turn, t as nat),
                    ) {
                        exists|turns: Seq<Cells>|
                            #[trigger] is_chain(
                                turns,
                                before_reactions(states[t], turn_after(turn, t as nat)),
                                WORLD_CELLS as int,
                            ) && reacted == committed_grid(turns[WORLD_CELLS as int]) && forall|k: int|
                                #[trigger] takes_turn(k, WORLD_CELLS as int) ==> match turns[k][k] {
                                    Some(tile) => match tile.element().periodic_reaction {
                                        PeriodicReaction::Custom(hook) => exists|
                                            view: NeighborhoodView<'_, Option<Tile>>,
                                            out: Option<Tile>,
                                        |
                                            view.cells() == turns[k] && view.index == k && call_ensures(
                                                run_hook,
                                                (hook, tile, view),
                                                out,
                                            ) && turns[k + 1] == final(view.slice)@.update(k, out),
                                        _ => may_react(turns[k], k as usize, turns[k + 1]),
                                    },
                                    None => turns[k + 1] == turns[k],
                                }
                    } else {
                        reacted == before_reactions(states[t], turn_after(turn, t as nat))
                    }) && exists|grids: Seq<Cells>|
                        #[trigger] is_chain(
                            grids,
                            integrated(reacted),
                            queues[t].len() as int,
                        ) && grids[queues[t].len() as int] == states[t + 1] && forall|k: int|
                            #[trigger] takes_turn(k, queues[t].len() as int) ==> exists|push_through: bool|
                                {
                                    let hit = #[trigger] after_contact(
                                        grids[k],
                                        queues[t][k].0,
                                        queues[t][k].1,
                                        push_through,
                                    );
                                    let source = queues[t][k].0;
                                    let destination = queues[t][k].1;
                                    let rule = old(world).rule_on(hit, source, destination);
                                    let first_index = first_of(hit, source, destination);
                                    let second_index = second_of(hit, source, destination);
                                    let first = first_tile_of(hit, source, destination);
                                    let second = second_tile_of(hit, source, destination);
                                    let key = collision_key(hit, source, destination);
                                    let table = old(world).flag_reactions();
                                    &&& push_through ==> is_collision(grids[k], source, destination)
                                        && grids[k][destination as int].unwrap().flagged(FLUID)
                                    &&& !is_collision(grids[k], source, destination) ==> grids[k + 1] == hit
                                    &&& is_collision(grids[k], source, destination) ==> {
                                        &&& rule == Rule::SideEffect ==> exists|
                                            view: CollisionView<'_, Option<Tile>>,
                                            out: (Option<Tile>, Option<Tile>),
                                        |
                                            view.cells() == hit && view.first_index == first_index && view.second_index
                                                == second_index && call_ensures(
                                                old(world).side_effects()[key],
                                                (first, second, view),
                                                out,
                                            ) && grids[k + 1] == replaced(
                                                final(view.slice)@,
                                                first_index,
                                                second_index,
                                                commit_cell(out.0),
                                                commit_cell(out.1),
                                            )
                                        &&& rule == Rule::Reaction ==> exists|out: (Option<Tile>, Option<Tile>)|
                                            call_ensures(old(world).reactions()[key], (first, second), out) && grids[k + 1] == replaced(
                                                hit,
                                                first_index,
                                                second_index,
                                                commit_cell(out.0),
                                                commit_cell(out.1),
                                            )
                                        &&& rule == Rule::SecondWithFlags ==> exists|out: (Option<Tile>, Option<Tile>)|
                                            call_ensures(
                                                table.lookup(first.element().flags, second.element().id).unwrap(),
                                                (second, first),
                                                out,
                                            ) && grids[k + 1] == replaced(hit, first_index, second_index, out.1, out.0)
                                        &&& rule == Rule::FirstWithFlags ==> exists|out: (Option<Tile>, Option<Tile>)|
                                            call_ensures(
                                                table.lookup(second.element().flags, first.element().id).unwrap(),
                                                (first, second),
                                                out,
                                            ) && grids[k + 1] == replaced(hit, first_index, second_index, out.0, out.1)
                                        &&& rule == Rule::Nothing ==> grids[k + 1] == hit
                                    }
                                },
        decreases UPDATES_PER_FRAME - i,
    {
        let ghost earlier = states;
        let ghost earlier_queues = queues;
        let ghost before = world.cells();
        let ghost stepping = *world;
        now = tick(world, motion_queue, now);
        proof {
            states = earlier.push(world.cells());
            queues = earlier_queues.push(motion_queue@);
            lemma_tick_depends_on_tables(
                &stepping,
                old(world),
                before,
                turn_after(turn, i as nat),
                motion_queue@,
                world.cells(),
            );
            assert forall|k: int| #[trigger] takes_turn(k, i + 1) implies may_tick(
                old(world),
                states[k],
                turn_after(turn, k as nat),
                queues[k],
                states[k + 1],
            ) by {
                if k < i {
                    assert(takes_turn(k, i as int));
                    assert(states[k] == earlier[k]);
                    assert(states[k + 1] == earlier[k + 1]);
                    assert(queues[k] == earlier_queues[k]);
                }
            }
            assert(states[i as int] == before);
            assert(states[i + 1] == world.cells());
            assert(queues[i as int] == motion_queue@);
            assert forall|t: int| #[trigger] takes_turn(t, i + 1) implies exists|reacted: Cells|
                queues[t] == #[trigger] planned_queue(reacted, WORLD_CELLS as nat) && (if reactions_run(
                    turn_after(turn, t as nat),
                ) {
                    exists|turns: Seq<Cells>|
                        #[trigger] is_chain(
                            turns,
                            before_reactions(states[t], turn_after(turn, t as nat)),
                            WORLD_CELLS as int,
                        ) && reacted == committed_grid(turns[WORLD_CELLS as int]) && forall|k: int|
                            #[trigger] takes_turn(k, WORLD_CELLS as int) ==> match turns[k][k] {
                                Some(tile) => match tile.element().periodic_reaction {
                                    PeriodicReaction::Custom(hook) => exists|
                                        view: NeighborhoodView<'_, Option<Tile>>,
                                        out: Option<Tile>,
                                    |
                                        view.cells() == turns[k] && view.index == k && call_ensures(
                                            run_hook,
                                            (hook, tile, view),
                                            out,
                                        ) && turns[k + 1] == final(view.slice)@.update(k, out),
                                    _ => may_react(turns[k], k as usize, turns[k + 1]),
                                },
                                None => turns[k + 1] == turns[k],
                            }
                } else {
                    reacted == before_reactions(states[t], turn_after(turn, t as nat))
                }) && exists|grids: Seq<Cells>|
                    #[trigger] is_chain(
                        grids,
                        integrated(reacted),
                        queues[t].len() as int,
                    ) && grids[queues[t].len() as int] == states[t + 1] && forall|k: int|
                        #[trigger] takes_turn(k, queues[t].len() as int) ==> exists|push_through: bool|
                            {
                                let hit = #[trigger] after_contact(
                                    grids[k],
                                    queues[t][k].0,
                                    queues[t][k].1,
                                    push_through,
                                );
                                let source = queues[t][k].0;
                                let destination = queues[t][k].1;
                                let rule = old(world).rule_on(hit, source, destination);
                                let first_index = first_of(hit, source, destination);
                                let second_index = second_of(hit, source, destination);
                                let first = first_tile_of(hit, source, destination);
                                let second = second_tile_of(hit, source, destination);
                                let key = collision_key(hit, source, destination);
                                let table = old(world).flag_reactions();
                                &&& push_through ==> is_collision(grids[k], source, destination)
                                    && grids[k][destination as int].unwrap().flagged(FLUID)
                                &&& !is_collision(grids[k], source, destination) ==> grids[k + 1] == hit
                                &&& is_collision(grids[k], source, destination) ==> {
                                    &&& rule == Rule::SideEffect ==> exists|
                                        view: CollisionView<'_, Option<Tile>>,
                                        out: (Option<Tile>, Option<Tile>),
                                    |
                                        view.cells() == hit && view.first_index == first_index && view.second_index
                                            == second_index && call_ensures(
                                            old(world).side_effects()[key],
                                            (first, second, view),
                                            out,
                                        ) && grids[k + 1] == replaced(
                                            final(view.slice)@,
                                            first_index,
                                            second_index,
                                            commit_cell(out.0),
                                            commit_cell(out.1),
                                        )
                                    &&& rule == Rule::Reaction ==> exists|out: (Option<Tile>, Option<Tile>)|
                                        call_ensures(old(world).reactions()[key], (first, second), out) && grids[k + 1] == replaced(
                                            hit,
                                            first_index,
                                            second_index,
                                            commit_cell(out.0),
                                            commit_cell(out.1),
                                        )
                                    &&& rule == Rule::SecondWithFlags ==> exists|out: (Option<Tile>, Option<Tile>)|
                                        call_ensures(
                                            table.lookup(first.element().flags, second.element().id).unwrap(),
                                            (second, first),
                                            out,
                                        ) && grids[k + 1] == replaced(hit, first_index, second_index, out.1, out.0)
                                    &&& rule == Rule::FirstWithFlags ==> exists|out: (Option<Tile>, Option<Tile>)|
                                        call_ensures(
                                            table.lookup(second.element().flags, first.element().id).unwrap(),
                                            (first, second),
                                            out,
                                        ) && grids[k + 1] == replaced(hit, first_index, second_index, out.0, out.1)
                                    &&& rule == Rule::Nothing ==> grids[k + 1] == hit
                                }
                            } by {
                if t < i {
                    assert(takes_turn(t, i as int));
                    assert(states[t] == earlier[t]);
                    assert(states[t + 1] == earlier[t + 1]);
                    assert(queues[t] == earlier_queues[t]);
                }
            }
        }
        i += 1;
    }
    proof {
        assert(is_run(states, queues, old(world).cells(), world.cells()));
        assert forall|k: int| 0 <= k < UPDATES_PER_FRAME implies may_tick(
            old(world),
            #[trigger] states[k],
            turn_after(turn, k as nat),
            queues[k],
            states[k + 1],
        ) by {
            assert(takes_turn(k, UPDATES_PER_FRAME as int));
        }
    }
    now
}

/// What a tick may do depends on the reactions of the world alone, not on
/// its grid.
pub proof fn lemma_tick_depends_on_tables<
    R: Fn(Tile, Tile) -> (Option<Tile>, Option<Tile>),
    S: for <'a>Fn(Tile, Tile, CollisionView<'a, Option<Tile>>) -> (Option<Tile>, Option<Tile>),
>(
    this: &World<R, S>,
    that: &World<R, S>,
    before: Cells,
    turn: i32,
    queue: Seq<(usize, usize)>,
    after: Cells,
)
    requires
        this.reactions() == that.reactions(),
        this.side_effects() == that.side_effects(),
        this.flag_reactions() == that.flag_reactions(),
        may_tick(this, before, turn, queue, after),
    ensures
        may_tick(that, before, turn, queue, after),
{
    let reacted = choose|reacted: Cells|
        {
            &&& if reactions_run(turn) {
                may_pass(before_reactions(before, turn), reacted)
            } else {
                reacted == before_reactions(before, turn)
            }
            &&& queue == #[trigger] planned_queue(reacted, WORLD_CELLS as nat)
            &&& may_carry_out(this, queue, integrated(reacted), after)
        };
    lemma_tables_decide(this, that, queue, integrated(reacted), after);
}

} // verus!
