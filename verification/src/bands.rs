//! Periodic reactions band by band: the grid is cut into bands of whole
//! rows, and the tiles in the inner rows of each band react within their
//! band. Bands do not reach into one another, so that they could be worked
//! on at the same time. A second pass, with the bands half a band lower,
//! takes the rows that lay at the edges of the bands of the first.

use vstd::prelude::*;
use crate::element::PeriodicReaction;
use crate::periodic::{
    committed_grid, decayed, keeps_visible_state, may_react, may_react_in_order, rarity_of, react_in,
    is_chain, run_hook, takes_turn,
};
use crate::tile::Tile;
use crate::world::{is_settled, Cells, World};
use crate::world_view::{is_around, CollisionView, NeighborhoodView};
use crate::{
    has_margin, is_inner_cell, spec_coords, spec_raw_neighbors, WORLD_CELLS, WORLD_HEIGHT,
    WORLD_WIDTH,
};

verus! {

/// The cells `start..start + len` of the grid: a band.
pub open spec fn band_of<T>(cells: Seq<T>, start: int, len: int) -> Seq<T> {
    cells.subrange(start, start + len)
}

/// The grid with the cells from `start` on replaced by `band`.
pub open spec fn with_band<T>(cells: Seq<T>, start: int, band: Seq<T>) -> Seq<T> {
    cells.subrange(0, start) + band + cells.subrange(start + band.len(), cells.len() as int)
}

/// The cells around a cell of a band are, in the grid, the cells around
/// the same cell of the grid: a view of a band reaches the cells that a
/// view of the grid would reach.
pub proof fn lemma_neighbors_move_with_the_band(start: int, center: int)
    ensures
        forall|k: int|
            0 <= k < 8 ==> #[trigger] spec_raw_neighbors(start + center)[k] == start
                + spec_raw_neighbors(center)[k],
{
}

/// A change of one cell of a band is the same change of the grid, and of no
/// cell outside the band.
pub proof fn lemma_band_update_is_grid_update<T>(cells: Seq<T>, start: int, len: int, j: int, value: T)
    requires
        0 <= start,
        start + len <= cells.len(),
        0 <= j < len,
    ensures
        with_band(cells, start, band_of(cells, start, len).update(j, value)) == cells.update(
            start + j,
            value,
        ),
        with_band(cells, start, band_of(cells, start, len)) == cells,
{
    assert(with_band(cells, start, band_of(cells, start, len).update(j, value)) =~= cells.update(
        start + j,
        value,
    ));
    assert(with_band(cells, start, band_of(cells, start, len)) =~= cells);
}

/// A cell with a margin inside one band, a cell with a margin inside
/// another band, and the cells around them are all different cells of the
/// grid: work on the one cannot touch what work on the other reads or
/// writes.
pub proof fn lemma_bands_keep_apart(start1: int, len1: int, center1: int, start2: int, len2: int, center2: int)
    requires
        0 <= start1,
        start1 + len1 <= start2,
        has_margin(center1, len1),
        has_margin(center2, len2),
    ensures
        start1 + center1 != start2 + center2,
        forall|k: int| 0 <= k < 8 ==> start1 + center1 != start2 + #[trigger] spec_raw_neighbors(center2)[k],
        forall|k: int| 0 <= k < 8 ==> start1 + #[trigger] spec_raw_neighbors(center1)[k] != start2 + center2,
        forall|k1: int, k2: int|
            0 <= k1 < 8 && 0 <= k2 < 8 ==> start1 + #[trigger] spec_raw_neighbors(center1)[k1] != start2
                + #[trigger] spec_raw_neighbors(center2)[k2],
{
    crate::world_view::lemma_raw_neighbors_are_distinct_cells(center1, len1);
    crate::world_view::lemma_raw_neighbors_are_distinct_cells(center2, len2);
}

/// A cell lies round a cell of a band exactly if it lies round the same cell
/// of the grid.
pub proof fn lemma_around_moves_with_the_band(start: int, center: int, cell: int)
    ensures
        is_around(start + center, start + cell) == is_around(center, cell),
{
    let here = spec_raw_neighbors(center);
    let there = spec_raw_neighbors(start + center);
    if is_around(center, cell) {
        let k = choose|k: int| 0 <= k < here.len() && here[k] == cell;
        assert(there[k] == start + cell);
    }
    if is_around(start + center, start + cell) {
        let k = choose|k: int| 0 <= k < there.len() && there[k] == start + cell;
        assert(here[k] == cell);
    }
}

/// What the reaction of a tile with a margin in its band may do to the band,
/// it may do to the grid: a reaction within a band is a reaction of the
/// grid, and it touches no cell outside the band.
pub proof fn lemma_reaction_in_band_is_reaction_in_grid(
    cells: Cells,
    start: usize,
    len: usize,
    i: usize,
    band_after: Cells,
)
    requires
        start + len <= cells.len() <= usize::MAX,
        has_margin(i as int, len as int),
        may_react(band_of(cells, start as int, len as int), i, band_after),
    ensures
        may_react(cells, (start + i) as usize, with_band(cells, start as int, band_after)),
{
    reveal(may_react);
    let band = band_of(cells, start as int, len as int);
    let after = with_band(cells, start as int, band_after);
    let center = (start + i) as usize;
    crate::world_view::lemma_raw_neighbors_are_distinct_cells(i as int, len as int);
    assert(band.len() == len);
    assert(band_after.len() == len);
    assert(center == start + i);
    assert(after.len() == cells.len());
    assert forall|j: int| 0 <= j < cells.len() && j != center && !is_around(center as int, j) implies after[j]
        == #[trigger] cells[j] by {
        if start <= j < start + len {
            lemma_around_moves_with_the_band(start as int, i as int, j - start);
            assert(band_after[j - start] == band[j - start]);
        }
    }
    assert forall|j: int|
        0 <= j < cells.len() && (#[trigger] cells[j]).is_some() && after[j].is_some() implies keeps_visible_state(
        cells[j].unwrap(),
        after[j].unwrap(),
    ) by {
        if start <= j < start + len {
            assert(band[j - start] == cells[j]);
            assert(band_after[j - start] == after[j]);
        }
    }
    assert(cells[center as int] == band[i as int]);
    match band[i as int] {
        None => {
            assert(after =~= cells);
        },
        Some(tile) => {
            match tile.element().periodic_reaction {
                PeriodicReaction::Inert => {
                    assert(after =~= cells);
                },
                PeriodicReaction::Custom(hook) => {},
                _ => {
                    let roll = choose|roll: int|
                        0 <= roll < rarity_of(tile.element().periodic_reaction) && band_after == band.update(
                            i as int,
                            #[trigger] decayed(tile, tile.element().periodic_reaction, roll),
                        );
                    lemma_band_update_is_grid_update(
                        cells,
                        start as int,
                        len as int,
                        i as int,
                        decayed(tile, tile.element().periodic_reaction, roll),
                    );
                },
            }
        },
    }
}

/// Whether every cell of `order` lies on no edge of the grid.
pub open spec fn all_inner(order: Seq<usize>) -> bool {
    forall|k: int| 0 <= k < order.len() ==> is_inner_cell(#[trigger] order[k] as int)
}

/// The cells of the row `row` of the grid that lie on no edge of it, from
/// left to right.
pub open spec fn row_order(row: int) -> Seq<usize> {
    Seq::new((WORLD_WIDTH - 2) as nat, |c: int| (row * WORLD_WIDTH + 1 + c) as usize)
}

/// The cells of the rows `from_row..to_row` of the grid that lie on neither
/// side of it, row by row.
pub open spec fn rows_order(from_row: int, to_row: int) -> Seq<usize>
    decreases to_row - from_row,
{
    if from_row >= to_row {
        Seq::empty()
    } else {
        row_order(from_row) + rows_order(from_row + 1, to_row)
    }
}

/// The turns of one band, in order: of the band that begins with the row
/// `first_row`, the cells of the rows `from_row..to_row`, counted from the
/// band's first row. A turn is the band's first cell and the cell whose
/// tile reacts.
pub open spec fn band_turns(first_row: int, from_row: int, to_row: int) -> Seq<(usize, usize)> {
    rows_order(first_row + from_row, first_row + to_row).map_values(
        |cell: usize| ((first_row * WORLD_WIDTH) as usize, cell),
    )
}

/// The turns of one pass, in order: band after band, from the band that
/// begins with the row `first_row` to the last band of `band_rows` rows
/// that lies in the grid, in each the rows `from_row..to_row`.
pub open spec fn pass_turns(first_row: int, band_rows: int, from_row: int, to_row: int) -> Seq<
    (usize, usize),
>
    decreases WORLD_HEIGHT - first_row,
{
    if band_rows <= 0 || first_row + band_rows > WORLD_HEIGHT {
        Seq::empty()
    } else {
        band_turns(first_row, from_row, to_row) + pass_turns(
            first_row + band_rows,
            band_rows,
            from_row,
            to_row,
        )
    }
}

/// The turns of the two passes, in order: the inner rows of the bands from
/// the top of the grid, and then the two middle rows of the bands that lie
/// half a band lower.
pub open spec fn turns_in_bands(band_rows: int) -> Seq<(usize, usize)> {
    pass_turns(0, band_rows, 1, band_rows - 1) + pass_turns(
        band_rows / 2,
        band_rows,
        middle_row(band_rows),
        middle_row(band_rows) + 2,
    )
}

/// The cells of the turns.
pub open spec fn cells_of(turns: Seq<(usize, usize)>) -> Seq<usize> {
    turns.map_values(|turn: (usize, usize)| turn.1)
}

/// The rows `from_row..to_row` hold as many inner cells as columns off the
/// sides for each row, and all of them lie in those rows.
pub proof fn lemma_rows_order(from_row: int, to_row: int)
    requires
        0 <= from_row <= to_row <= WORLD_HEIGHT,
    ensures
        rows_order(from_row, to_row).len() == (to_row - from_row) * (WORLD_WIDTH - 2),
        forall|k: int|
            0 <= k < rows_order(from_row, to_row).len() ==> {
                let cell = #[trigger] rows_order(from_row, to_row)[k];
                &&& cell == (from_row + k / (WORLD_WIDTH - 2)) * WORLD_WIDTH + 1 + k % (WORLD_WIDTH - 2)
                &&& from_row <= spec_coords(cell as int).1 < to_row
                &&& 1 <= spec_coords(cell as int).0 <= WORLD_WIDTH - 2
            },
    decreases to_row - from_row,
{
    if from_row < to_row {
        lemma_rows_order(from_row + 1, to_row);
        let rest = rows_order(from_row + 1, to_row);
        let all = rows_order(from_row, to_row);
        assert(all == row_order(from_row) + rest);
        assert forall|k: int| 0 <= k < all.len() implies {
            let cell = #[trigger] all[k];
            &&& cell == (from_row + k / (WORLD_WIDTH - 2)) * WORLD_WIDTH + 1 + k % (WORLD_WIDTH - 2)
            &&& from_row <= spec_coords(cell as int).1 < to_row
            &&& 1 <= spec_coords(cell as int).0 <= WORLD_WIDTH - 2
        } by {
            if k >= 198 {
                assert(all[k] == rest[k - 198]);
            }
        }
    }
}

/// The turns of a band all begin with the band's first cell, and their
/// cells lie with a margin inside the band and on no edge of the grid.
pub proof fn lemma_band_turns(first_row: int, rows: int, from_row: int, to_row: int)
    requires
        0 <= first_row,
        first_row + rows <= WORLD_HEIGHT,
        1 <= from_row <= to_row <= rows - 1,
    ensures
        band_turns(first_row, from_row, to_row).len() == (to_row - from_row) * (WORLD_WIDTH - 2),
        forall|k: int|
            0 <= k < band_turns(first_row, from_row, to_row).len() ==> {
                let turn = #[trigger] band_turns(first_row, from_row, to_row)[k];
                &&& turn.0 == first_row * WORLD_WIDTH
                &&& turn.1 == rows_order(first_row + from_row, first_row + to_row)[k]
                &&& has_margin(turn.1 - turn.0, rows * WORLD_WIDTH)
                &&& is_inner_cell(turn.1 as int)
            },
{
    lemma_rows_order(first_row + from_row, first_row + to_row);
    let order = rows_order(first_row + from_row, first_row + to_row);
    assert forall|k: int| 0 <= k < band_turns(first_row, from_row, to_row).len() implies {
        let turn = #[trigger] band_turns(first_row, from_row, to_row)[k];
        &&& turn.0 == first_row * WORLD_WIDTH
        &&& turn.1 == order[k]
        &&& has_margin(turn.1 - turn.0, rows * WORLD_WIDTH)
        &&& is_inner_cell(turn.1 as int)
    } by {
        let cell = order[k];
        assert(first_row + from_row <= spec_coords(cell as int).1 < first_row + to_row);
    }
}

/// Every turn of a pass reacts in a cell that lies on no edge of the grid.
pub proof fn lemma_pass_turns_are_inner(first_row: int, band_rows: int, from_row: int, to_row: int)
    requires
        0 <= first_row,
        1 <= from_row <= to_row <= band_rows - 1,
    ensures
        all_inner(cells_of(pass_turns(first_row, band_rows, from_row, to_row))),
    decreases WORLD_HEIGHT - first_row,
{
    let turns = pass_turns(first_row, band_rows, from_row, to_row);
    if first_row + band_rows <= WORLD_HEIGHT {
        lemma_pass_turns_are_inner(first_row + band_rows, band_rows, from_row, to_row);
        lemma_band_turns(first_row, band_rows, from_row, to_row);
        let head = band_turns(first_row, from_row, to_row);
        let rest = pass_turns(first_row + band_rows, band_rows, from_row, to_row);
        assert forall|k: int| 0 <= k < cells_of(turns).len() implies is_inner_cell(
            #[trigger] cells_of(turns)[k] as int,
        ) by {
            if k < head.len() {
                assert(turns[k] == head[k]);
            } else {
                assert(turns[k] == rest[k - head.len()]);
                assert(cells_of(rest)[k - head.len()] == rest[k - head.len()].1);
            }
        }
    }
}

/// Every turn of the two passes reacts in a cell that lies on no edge of the
/// grid.
pub proof fn lemma_turns_in_bands_are_inner(band_rows: int)
    requires
        4 <= band_rows <= WORLD_HEIGHT,
    ensures
        all_inner(cells_of(turns_in_bands(band_rows))),
{
    lemma_pass_turns_are_inner(0, band_rows, 1, band_rows - 1);
    lemma_pass_turns_are_inner(band_rows / 2, band_rows, middle_row(band_rows), middle_row(band_rows) + 2);
    let one = pass_turns(0, band_rows, 1, band_rows - 1);
    let two = pass_turns(band_rows / 2, band_rows, middle_row(band_rows), middle_row(band_rows) + 2);
    let turns = turns_in_bands(band_rows);
    assert forall|k: int| 0 <= k < cells_of(turns).len() implies is_inner_cell(
        #[trigger] cells_of(turns)[k] as int,
    ) by {
        if k < one.len() {
            assert(turns[k] == one[k]);
            assert(cells_of(one)[k] == one[k].1);
        } else {
            assert(turns[k] == two[k - one.len()]);
            assert(cells_of(two)[k - one.len()] == two[k - one.len()].1);
        }
    }
}

/// The inner cells of a row up to a column, and then the cell in that
/// column, are the inner cells of the row up to the next column.
proof fn lemma_next_in_row(begin: Seq<usize>, row: int, column: int)
    requires
        1 <= column <= WORLD_WIDTH - 2,
        0 <= row < WORLD_HEIGHT,
    ensures
        (begin + row_order(row).take(column - 1)).push((row * WORLD_WIDTH + column) as usize) == begin
            + row_order(row).take(column),
        (begin + row_order(row).take(column - 1)).len() == begin.len() + column - 1,
{
    assert((begin + row_order(row).take(column - 1)).push((row * WORLD_WIDTH + column) as usize) =~= begin
        + row_order(row).take(column));
}

/// The inner cells of a row and of the rows after it are the inner cells
/// of the rows from that row on.
proof fn lemma_row_done(begin: Seq<usize>, row: int, to_row: int)
    requires
        row < to_row,
    ensures
        begin + row_order(row).take(WORLD_WIDTH - 2) + rows_order(row + 1, to_row) == begin + rows_order(
            row,
            to_row,
        ),
        begin + row_order(row).take(0) == begin,
{
    assert(row_order(row).take(WORLD_WIDTH - 2) =~= row_order(row));
    assert(begin + row_order(row) + rows_order(row + 1, to_row) =~= begin + (row_order(row) + rows_order(
        row + 1,
        to_row,
    )));
    assert(begin + row_order(row).take(0) =~= begin);
}

/// The grids of two chains, of which the second begins where the first
/// ends, joined into one chain.
pub open spec fn joined(one: Seq<Cells>, two: Seq<Cells>) -> Seq<Cells> {
    one + two.subrange(1, two.len() as int)
}

/// What stands where in a joined chain.
proof fn lemma_joined(one: Seq<Cells>, two: Seq<Cells>, k: int)
    requires
        one.len() >= 1,
        two.len() >= 1,
        two[0] == one[one.len() - 1],
        0 <= k < one.len() + two.len() - 1,
    ensures
        joined(one, two).len() == one.len() + two.len() - 1,
        k < one.len() ==> joined(one, two)[k] == one[k],
        k >= one.len() - 1 ==> joined(one, two)[k] == two[k - (one.len() - 1)],
{
}

/// Whether a pass from the band that begins with the row `first_row` takes
/// the row `row`: it is one of the rows `from_row..to_row` of one of the
/// bands of the pass.
pub open spec fn row_in_pass(row: int, first_row: int, band_rows: int, from_row: int, to_row: int) -> bool
    decreases WORLD_HEIGHT - first_row,
{
    if band_rows <= 0 || first_row + band_rows > WORLD_HEIGHT {
        false
    } else {
        first_row + from_row <= row < first_row + to_row || row_in_pass(
            row,
            first_row + band_rows,
            band_rows,
            from_row,
            to_row,
        )
    }
}

/// A pass takes no row above the first row that its first band takes.
pub proof fn lemma_pass_begins_below(row: int, first_row: int, band_rows: int, from_row: int, to_row: int)
    requires
        row_in_pass(row, first_row, band_rows, from_row, to_row),
    ensures
        row >= first_row + from_row,
    decreases WORLD_HEIGHT - first_row,
{
    if !(first_row + from_row <= row < first_row + to_row) {
        lemma_pass_begins_below(row, first_row + band_rows, band_rows, from_row, to_row);
    }
}

/// The two passes share no row: where the second pass takes the last row of
/// each band of the first and the row after it, no row that the first pass
/// takes, an inner row of a band, is taken again.
pub proof fn lemma_passes_share_no_row(row: int, first_row: int, second_row: int, band_rows: int, middle: int)
    requires
        3 <= band_rows,
        0 <= middle,
        second_row + middle == first_row + band_rows - 1,
    ensures
        !(row_in_pass(row, first_row, band_rows, 1, band_rows - 1) && row_in_pass(
            row,
            second_row,
            band_rows,
            middle,
            middle + 2,
        )),
    decreases WORLD_HEIGHT - first_row,
{
    let one = row_in_pass(row, first_row, band_rows, 1, band_rows - 1);
    let two = row_in_pass(row, second_row, band_rows, middle, middle + 2);
    if one && two {
        let in_band_one = first_row + 1 <= row < first_row + band_rows - 1;
        let in_band_two = second_row + middle <= row < second_row + middle + 2;
        if in_band_one {
            if !in_band_two {
                lemma_pass_begins_below(row, second_row + band_rows, band_rows, middle, middle + 2);
            }
        } else {
            lemma_pass_begins_below(row, first_row + band_rows, band_rows, 1, band_rows - 1);
            if !in_band_two {
                lemma_passes_share_no_row(
                    row,
                    first_row + band_rows,
                    second_row + band_rows,
                    band_rows,
                    middle,
                );
            }
        }
    }
}

/// The cells of the turns of a pass come in ascending order, and each lies
/// in a row that the pass takes.
pub proof fn lemma_pass_turns_ascend(first_row: int, band_rows: int, from_row: int, to_row: int)
    requires
        0 <= first_row,
        0 <= from_row <= to_row <= band_rows,
    ensures
        forall|i: int, j: int|
            0 <= i < j < pass_turns(first_row, band_rows, from_row, to_row).len() ==> (#[trigger] pass_turns(
                first_row,
                band_rows,
                from_row,
                to_row,
            )[i]).1 < (#[trigger] pass_turns(first_row, band_rows, from_row, to_row)[j]).1,
        forall|i: int|
            0 <= i < pass_turns(first_row, band_rows, from_row, to_row).len() ==> {
                let cell = (#[trigger] pass_turns(first_row, band_rows, from_row, to_row)[i]).1;
                &&& row_in_pass(spec_coords(cell as int).1, first_row, band_rows, from_row, to_row)
                &&& (first_row + from_row) * WORLD_WIDTH <= cell
            },
    decreases WORLD_HEIGHT - first_row,
{
    let turns = pass_turns(first_row, band_rows, from_row, to_row);
    if band_rows > 0 && first_row + band_rows <= WORLD_HEIGHT {
        let head = band_turns(first_row, from_row, to_row);
        let rest = pass_turns(first_row + band_rows, band_rows, from_row, to_row);
        let order = rows_order(first_row + from_row, first_row + to_row);
        lemma_pass_turns_ascend(first_row + band_rows, band_rows, from_row, to_row);
        lemma_rows_order(first_row + from_row, first_row + to_row);
        assert(turns == head + rest);
        assert(head.len() == order.len());
        assert forall|i: int| 0 <= i < turns.len() implies {
            let cell = (#[trigger] turns[i]).1;
            &&& row_in_pass(spec_coords(cell as int).1, first_row, band_rows, from_row, to_row)
            &&& (first_row + from_row) * WORLD_WIDTH <= cell
            &&& i < head.len() ==> cell < (first_row + to_row) * WORLD_WIDTH
            &&& i >= head.len() ==> cell >= (first_row + band_rows + from_row) * WORLD_WIDTH
        } by {
            if i < head.len() {
                assert(turns[i] == head[i]);
                assert(head[i].1 == order[i]);
                let cell = order[i];
                assert(first_row + from_row <= spec_coords(cell as int).1 < first_row + to_row);
            } else {
                assert(turns[i] == rest[i - head.len()]);
            }
        }
        assert forall|i: int, j: int| 0 <= i < j < turns.len() implies (#[trigger] turns[i]).1 < (
        #[trigger] turns[j]).1 by {
            if j < head.len() {
                assert(turns[i] == head[i] && turns[j] == head[j]);
                assert(head[i].1 == order[i] && head[j].1 == order[j]);
            } else if i >= head.len() {
                assert(turns[i] == rest[i - head.len()]);
                assert(turns[j] == rest[j - head.len()]);
            } else {
                assert(turns[i].1 < (first_row + to_row) * WORLD_WIDTH);
                assert(turns[j].1 >= (first_row + band_rows + from_row) * WORLD_WIDTH);
            }
        }
    }
}

/// No cell takes two turns: the turns of the two passes all react in
/// different cells.
pub proof fn lemma_no_cell_takes_two_turns(band_rows: int, i: int, j: int)
    requires
        4 <= band_rows <= WORLD_HEIGHT,
        0 <= i < j < turns_in_bands(band_rows).len(),
    ensures
        turns_in_bands(band_rows)[i].1 != turns_in_bands(band_rows)[j].1,
{
    let middle = middle_row(band_rows);
    let one = pass_turns(0, band_rows, 1, band_rows - 1);
    let two = pass_turns(band_rows / 2, band_rows, middle, middle + 2);
    let turns = turns_in_bands(band_rows);
    lemma_pass_turns_ascend(0, band_rows, 1, band_rows - 1);
    lemma_pass_turns_ascend(band_rows / 2, band_rows, middle, middle + 2);
    if j < one.len() {
        assert(turns[i] == one[i] && turns[j] == one[j]);
    } else if i >= one.len() {
        assert(turns[i] == two[i - one.len()]);
        assert(turns[j] == two[j - one.len()]);
    } else {
        assert(turns[i] == one[i]);
        assert(turns[j] == two[j - one.len()]);
        let row = spec_coords(turns[i].1 as int).1;
        lemma_passes_share_no_row(row, 0, band_rows / 2, band_rows, middle);
    }
}

/// Lets the tiles of some inner rows of one band react, and gives the grids
/// between the turns.
fn react_through_band<
    R: Fn(Tile, Tile) -> (Option<Tile>, Option<Tile>),
    S: for <'a>Fn(Tile, Tile, CollisionView<'a, Option<Tile>>) -> (Option<Tile>, Option<Tile>),
>(
    world: &mut World<R, S>,
    first_row: usize,
    rows: usize,
    from_row: usize,
    to_row: usize,
) -> (chain: Ghost<Seq<Cells>>)
    requires
        3 <= rows,
        first_row + rows <= WORLD_HEIGHT,
        1 <= from_row <= to_row <= rows - 1,
    ensures
        final(world).keeps_tables(old(world)),
        is_chain(
            chain@,
            old(world).cells(),
            band_turns(first_row as int, from_row as int, to_row as int).len() as int,
        ),
        chain@[band_turns(first_row as int, from_row as int, to_row as int).len() as int] == final(world).cells(),
        forall|k: int|
            #[trigger] takes_turn(
                k,
                band_turns(first_row as int, from_row as int, to_row as int).len() as int,
            ) ==> may_react(
                chain@[k],
                band_turns(first_row as int, from_row as int, to_row as int)[k].1,
                chain@[k + 1],
            ),
        forall|k: int|
            #[trigger] takes_turn(
                k,
                band_turns(first_row as int, from_row as int, to_row as int).len() as int,
            ) ==> {
                let (start, cell) = band_turns(first_row as int, from_row as int, to_row as int)[k];
                match chain@[k][cell as int] {
                    Some(tile) => match tile.element().periodic_reaction {
                        PeriodicReaction::Custom(hook) => exists|
                            view: NeighborhoodView<'_, Option<Tile>>,
                            out: Option<Tile>,
                        |
                            view.cells() == band_of(chain@[k], start as int, rows * WORLD_WIDTH as int) && view.index
                                == cell - start && call_ensures(run_hook, (hook, tile, view), out)
                                && chain@[k + 1] == with_band(
                                chain@[k],
                                start as int,
                                final(view.slice)@.update(cell - start, out),
                            ),
                        _ => may_react(chain@[k], cell, chain@[k + 1]),
                    },
                    None => chain@[k + 1] == chain@[k],
                }
            },
{
    let width = WORLD_WIDTH as usize;
    let start = first_row * width;
    let len = rows * width;
    let ghost whole = rows_order(first_row + from_row, first_row + to_row);
    let ghost mut order: Seq<usize> = Seq::empty();
    let ghost mut grids: Seq<Cells> = seq![world.cells()];
    proof {
        old(world).lemma_cell_count();
        assert(order + whole =~= whole);
    }
    let mut row: usize = from_row;
    while row < to_row
        invariant
            1 <= from_row <= row <= to_row <= rows - 1,
            3 <= rows,
            first_row + rows <= WORLD_HEIGHT,
            width == WORLD_WIDTH,
            start == first_row * width,
            len == rows * width,
            world.keeps_tables(old(world)),
            world.cells().len() == WORLD_CELLS,
            whole == rows_order(first_row + from_row, first_row + to_row),
            order + rows_order(first_row + row, first_row + to_row) == whole,
            grids.len() == order.len() + 1,
            grids[0] == old(world).cells(),
            grids[order.len() as int] == world.cells(),
            forall|k: int| #[trigger] takes_turn(k, order.len() as int) ==> may_react(grids[k], order[k], grids[k + 1]),
            forall|k: int|
                #[trigger] takes_turn(k, order.len() as int) ==> match grids[k][order[k] as int] {
                    Some(tile) => match tile.element().periodic_reaction {
                        PeriodicReaction::Custom(hook) => exists|
                            view: NeighborhoodView<'_, Option<Tile>>,
                            out: Option<Tile>,
                        |
                            view.cells() == band_of(grids[k], start as int, len as int) && view.index == order[k]
                                - start && call_ensures(run_hook, (hook, tile, view), out) && grids[k + 1]
                                == with_band(
                                grids[k],
                                start as int,
                                final(view.slice)@.update(order[k] - start, out),
                            ),
                        _ => may_react(grids[k], order[k], grids[k + 1]),
                    },
                    None => grids[k + 1] == grids[k],
                },
        decreases to_row - row,
    {
        let ghost row_begin = order;
        let mut column: usize = 1;
        proof {
            lemma_row_done(row_begin, first_row + row, first_row + to_row);
        }
        while column < width - 1
            invariant
                1 <= column <= width - 1,
                1 <= from_row <= row < to_row <= rows - 1,
                3 <= rows,
                first_row + rows <= WORLD_HEIGHT,
                width == WORLD_WIDTH,
                start == first_row * width,
                len == rows * width,
                world.keeps_tables(old(world)),
                world.cells().len() == WORLD_CELLS,
                order == row_begin + row_order(first_row + row).take(column - 1),
                row_begin + rows_order(first_row + row, first_row + to_row) == whole,
                grids.len() == order.len() + 1,
                grids[0] == old(world).cells(),
                grids[order.len() as int] == world.cells(),
                forall|k: int|
                    #[trigger] takes_turn(k, order.len() as int) ==> may_react(grids[k], order[k], grids[k + 1]),
                forall|k: int|
                    #[trigger] takes_turn(k, order.len() as int) ==> match grids[k][order[k] as int] {
                        Some(tile) => match tile.element().periodic_reaction {
                            PeriodicReaction::Custom(hook) => exists|
                                view: NeighborhoodView<'_, Option<Tile>>,
                                out: Option<Tile>,
                            |
                                view.cells() == band_of(grids[k], start as int, len as int) && view.index == order[k]
                                    - start && call_ensures(run_hook, (hook, tile, view), out) && grids[k + 1]
                                    == with_band(
                                    grids[k],
                                    start as int,
                                    final(view.slice)@.update(order[k] - start, out),
                                ),
                            _ => may_react(grids[k], order[k], grids[k + 1]),
                        },
                        None => grids[k + 1] == grids[k],
                    },
            decreases width - 1 - column,
        {
            let i = row * width + column;
            let ghost before = world.cells();
            let ghost earlier = grids;
            let ghost earlier_order = order;
            let band = world.band_mut(start, len);
            let ghost band_before = band@;
            react_in(band, i);
            let ghost band_after = band@;
            proof {
                assert(band_before == band_of(before, start as int, len as int));
                assert(world.cells() =~= with_band(before, start as int, band_after));
                lemma_reaction_in_band_is_reaction_in_grid(before, start, len, i, band_after);
                let center = (start + i) as usize;
                assert(center == (first_row + row) * 200 + column);
                assert(before[center as int] == band_before[i as int]);
                lemma_band_update_is_grid_update(before, start as int, len as int, i as int, None);
                order = earlier_order.push(center);
                grids = earlier.push(world.cells());
                let n = earlier_order.len() as int;
                assert(grids[n] == before);
                assert(grids[n + 1] == world.cells());
                assert(order[n] == center);
                lemma_next_in_row(row_begin, first_row + row, column as int);
                assert forall|k: int| #[trigger] takes_turn(k, order.len() as int) implies may_react(
                    grids[k],
                    order[k],
                    grids[k + 1],
                ) by {
                    if k < n {
                        assert(takes_turn(k, n));
                        assert(grids[k] == earlier[k]);
                        assert(grids[k + 1] == earlier[k + 1]);
                        assert(order[k] == earlier_order[k]);
                    }
                }
                assert forall|k: int| #[trigger] takes_turn(k, order.len() as int) implies match grids[k][order[k] as int] {
                    Some(tile) => match tile.element().periodic_reaction {
                        PeriodicReaction::Custom(hook) => exists|
                            view: NeighborhoodView<'_, Option<Tile>>,
                            out: Option<Tile>,
                        |
                            view.cells() == band_of(grids[k], start as int, len as int) && view.index == order[k]
                                - start && call_ensures(run_hook, (hook, tile, view), out) && grids[k + 1]
                                == with_band(
                                grids[k],
                                start as int,
                                final(view.slice)@.update(order[k] - start, out),
                            ),
                        _ => may_react(grids[k], order[k], grids[k + 1]),
                    },
                    None => grids[k + 1] == grids[k],
                } by {
                    if k < n {
                        assert(takes_turn(k, n));
                        assert(grids[k] == earlier[k]);
                        assert(grids[k + 1] == earlier[k + 1]);
                        assert(order[k] == earlier_order[k]);
                    }
                }
            }
            column += 1;
        }
        proof {
            lemma_row_done(row_begin, first_row + row, first_row + to_row);
        }
        row += 1;
    }
    proof {
        assert(order =~= whole);
        lemma_band_turns(first_row as int, rows as int, from_row as int, to_row as int);
        let turns = band_turns(first_row as int, from_row as int, to_row as int);
        assert(turns.len() == order.len());
        assert forall|k: int| #[trigger] takes_turn(k, turns.len() as int) implies may_react(
            grids[k],
            turns[k].1,
            grids[k + 1],
        ) by {
            assert(takes_turn(k, order.len() as int));
            assert(turns[k].1 == order[k]);
        }
        assert forall|k: int| #[trigger] takes_turn(k, turns.len() as int) implies match grids[k][turns[k].1 as int] {
            Some(tile) => match tile.element().periodic_reaction {
                PeriodicReaction::Custom(hook) => exists|
                    view: NeighborhoodView<'_, Option<Tile>>,
                    out: Option<Tile>,
                |
                    view.cells() == band_of(grids[k], turns[k].0 as int, rows * WORLD_WIDTH as int) && view.index == turns[k].1
                        - turns[k].0 && call_ensures(run_hook, (hook, tile, view), out) && grids[k + 1]
                        == with_band(
                        grids[k],
                        turns[k].0 as int,
                        final(view.slice)@.update(turns[k].1 - turns[k].0, out),
                    ),
                _ => may_react(grids[k], turns[k].1, grids[k + 1]),
            },
            None => grids[k + 1] == grids[k],
        } by {
            assert(takes_turn(k, order.len() as int));
            assert(turns[k].1 == order[k]);
            assert(turns[k].0 == start);
        }
    }
    Ghost(grids)
}

/// Lets the tiles of some inner rows of one band react, row by row and
/// within the band: of the band of `rows` rows that begins with the row
/// `first_row`, the rows `from_row..to_row`, counted from the band's first
/// row.
///
/// The tiles react in the order of `band_turns`, and there is a grid before
/// each turn. An empty cell leaves its grid as it is; an inert or decaying
/// tile changes it as `may_react` says; a tile with a behaviour of its own
/// is handed a view of the band, and the next grid is the grid with the
/// band as the behaviour left it through the view, the tile replaced by
/// what the behaviour returned.
pub fn react_in_band<
    R: Fn(Tile, Tile) -> (Option<Tile>, Option<Tile>),
    S: for <'a>Fn(Tile, Tile, CollisionView<'a, Option<Tile>>) -> (Option<Tile>, Option<Tile>),
>(world: &mut World<R, S>, first_row: usize, rows: usize, from_row: usize, to_row: usize)
    requires
        3 <= rows,
        first_row + rows <= WORLD_HEIGHT,
        1 <= from_row <= to_row <= rows - 1,
    ensures
        final(world).keeps_tables(old(world)),
        may_react_in_order(
            old(world).cells(),
            cells_of(band_turns(first_row as int, from_row as int, to_row as int)),
            final(world).cells(),
        ),
        exists|grids: Seq<Cells>|
            #[trigger] is_chain(
                grids,
                old(world).cells(),
                band_turns(first_row as int, from_row as int, to_row as int).len() as int,
            ) && grids[band_turns(first_row as int, from_row as int, to_row as int).len() as int]
                == final(world).cells() && forall|k: int|
                #[trigger] takes_turn(
                    k,
                    band_turns(first_row as int, from_row as int, to_row as int).len() as int,
                ) ==> {
                    let (start, cell) = band_turns(first_row as int, from_row as int, to_row as int)[k];
                    match grids[k][cell as int] {
                        Some(tile) => match tile.element().periodic_reaction {
                            PeriodicReaction::Custom(hook) => exists|
                                view: NeighborhoodView<'_, Option<Tile>>,
                                out: Option<Tile>,
                            |
                                view.cells() == band_of(grids[k], start as int, rows * WORLD_WIDTH as int) && view.index
                                    == cell - start && call_ensures(run_hook, (hook, tile, view), out)
                                    && grids[k + 1] == with_band(
                                    grids[k],
                                    start as int,
                                    final(view.slice)@.update(cell - start, out),
                                ),
                            _ => may_react(grids[k], cell, grids[k + 1]),
                        },
                        None => grids[k + 1] == grids[k],
                    }
                },
{
    let chain = react_through_band(world, first_row, rows, from_row, to_row);
    proof {
        let turns = band_turns(first_row as int, from_row as int, to_row as int);
        let grids = chain@;
        lemma_chain_reacts_in_order(old(world).cells(), turns, grids, world.cells());
        assert(is_chain(grids, old(world).cells(), turns.len() as int));
        assert(grids[turns.len() as int] == world.cells());
    }
}

/// A chain of grids, each of which the reaction of its turn may have made
/// of the one before, shows that the reactions may follow one another in
/// the order of the turns.
pub proof fn lemma_chain_reacts_in_order(
    before: Cells,
    turns: Seq<(usize, usize)>,
    grids: Seq<Cells>,
    after: Cells,
)
    requires
        grids.len() == turns.len() + 1,
        grids[0] == before,
        grids[turns.len() as int] == after,
        forall|k: int| #[trigger] takes_turn(k, turns.len() as int) ==> may_react(grids[k], turns[k].1, grids[k + 1]),
    ensures
        may_react_in_order(before, cells_of(turns), after),
{
    let order = cells_of(turns);
    assert(grids.len() == order.len() + 1);
    assert(grids[order.len() as int] == after);
    assert forall|k: int| 0 <= k < order.len() implies may_react(
        #[trigger] grids[k],
        order[k],
        grids[k + 1],
    ) by {
        assert(takes_turn(k, turns.len() as int));
        assert(order[k] == turns[k].1);
    }
}

/// The row of a band, counted from the band's first row, with which the two
/// middle rows of the band begin.
pub open spec fn middle_row(band_rows: int) -> int {
    (band_rows + 1) / 2 - 1
}

/// Where `bands` bands of `band_rows` rows fill the grid from the row
/// `first_row` on, every row from the second of them to the last but one of
/// the grid is taken by the first pass from `first_row` or by the second
/// pass from half a band lower.
proof fn lemma_passes_take_the_rows_between(row: int, first_row: int, band_rows: int, bands: nat)
    requires
        4 <= band_rows,
        0 <= first_row,
        first_row + bands * band_rows == WORLD_HEIGHT,
        first_row + 1 <= row <= WORLD_HEIGHT - 2,
    ensures
        row_in_pass(row, first_row, band_rows, 1, band_rows - 1) || row_in_pass(
            row,
            first_row + band_rows / 2,
            band_rows,
            middle_row(band_rows),
            middle_row(band_rows) + 2,
        ),
    decreases bands,
{
    let middle = middle_row(band_rows);
    let second_row = first_row + band_rows / 2;
    assert(second_row + middle == first_row + band_rows - 1);
    assert(bands >= 1) by (nonlinear_arith)
        requires
            first_row + bands * band_rows == WORLD_HEIGHT,
            first_row + 3 <= WORLD_HEIGHT,
            band_rows > 0,
    ;
    assert((bands - 1) * band_rows == bands * band_rows - band_rows) by (nonlinear_arith);
    if row >= first_row + band_rows - 1 {
        assert(bands >= 2) by (nonlinear_arith)
            requires
                first_row + bands * band_rows == WORLD_HEIGHT,
                first_row + band_rows + 1 <= WORLD_HEIGHT,
                bands >= 1,
                band_rows > 0,
        ;
        assert(bands * band_rows >= 2 * band_rows) by (nonlinear_arith)
            requires
                bands >= 2,
                band_rows > 0,
        ;
        if row > first_row + band_rows {
            lemma_passes_take_the_rows_between(row, first_row + band_rows, band_rows, (bands - 1) as nat);
        }
    }
}

/// Where the height of the bands divides the height of the grid, the two
/// passes take every row off the edge of the grid, and none twice: a row is
/// an inner row of its band in the first pass, or one of the two middle rows
/// of its band in the second.
pub proof fn lemma_two_passes_take_every_row_once(row: int, band_rows: int)
    requires
        4 <= band_rows <= WORLD_HEIGHT,
        WORLD_HEIGHT as int % band_rows == 0,
        1 <= row <= WORLD_HEIGHT - 2,
    ensures
        row_in_pass(row, 0, band_rows, 1, band_rows - 1) != row_in_pass(
            row,
            band_rows / 2,
            band_rows,
            middle_row(band_rows),
            middle_row(band_rows) + 2,
        ),
{
    let bands = WORLD_HEIGHT as int / band_rows;
    assert(WORLD_HEIGHT == bands * band_rows && bands >= 0) by {
        vstd::arithmetic::div_mod::lemma_fundamental_div_mod(WORLD_HEIGHT as int, band_rows);
        vstd::arithmetic::div_mod::lemma_div_pos_is_pos(WORLD_HEIGHT as int, band_rows);
        assert(band_rows * bands == bands * band_rows) by (nonlinear_arith);
    }
    lemma_passes_take_the_rows_between(row, 0, band_rows, bands as nat);
    lemma_passes_share_no_row(row, 0, band_rows / 2, band_rows, middle_row(band_rows));
}

/// Lets the bands of one pass react, band after band from the band that
/// begins with the row `first_row`, and gives the grids between the turns.
fn react_through_pass<
    R: Fn(Tile, Tile) -> (Option<Tile>, Option<Tile>),
    S: for <'a>Fn(Tile, Tile, CollisionView<'a, Option<Tile>>) -> (Option<Tile>, Option<Tile>),
>(
    world: &mut World<R, S>,
    first_row: usize,
    band_rows: usize,
    from_row: usize,
    to_row: usize,
) -> (chain: Ghost<Seq<Cells>>)
    requires
        4 <= band_rows <= WORLD_HEIGHT,
        1 <= from_row <= to_row <= band_rows - 1,
    ensures
        final(world).keeps_tables(old(world)),
        is_chain(
            chain@,
            old(world).cells(),
            pass_turns(first_row as int, band_rows as int, from_row as int, to_row as int).len() as int,
        ),
        chain@[pass_turns(first_row as int, band_rows as int, from_row as int, to_row as int).len() as int] == final(world).cells(),
        forall|k: int|
            #[trigger] takes_turn(
                k,
                pass_turns(first_row as int, band_rows as int, from_row as int, to_row as int).len() as int,
            ) ==> may_react(
                chain@[k],
                pass_turns(first_row as int, band_rows as int, from_row as int, to_row as int)[k].1,
                chain@[k + 1],
            ),
        forall|k: int|
            #[trigger] takes_turn(
                k,
                pass_turns(first_row as int, band_rows as int, from_row as int, to_row as int).len() as int,
            ) ==> {
                let (start, cell) = pass_turns(first_row as int, band_rows as int, from_row as int, to_row as int)[k];
                match chain@[k][cell as int] {
                    Some(tile) => match tile.element().periodic_reaction {
                        PeriodicReaction::Custom(hook) => exists|
                            view: NeighborhoodView<'_, Option<Tile>>,
                            out: Option<Tile>,
                        |
                            view.cells() == band_of(chain@[k], start as int, band_rows * WORLD_WIDTH as int) && view.index
                                == cell - start && call_ensures(run_hook, (hook, tile, view), out)
                                && chain@[k + 1] == with_band(
                                chain@[k],
                                start as int,
                                final(view.slice)@.update(cell - start, out),
                            ),
                        _ => may_react(chain@[k], cell, chain@[k + 1]),
                    },
                    None => chain@[k + 1] == chain@[k],
                }
            },
{
    let ghost whole = pass_turns(first_row as int, band_rows as int, from_row as int, to_row as int);
    let ghost mut turns: Seq<(usize, usize)> = Seq::empty();
    let ghost mut grids: Seq<Cells> = seq![world.cells()];
    let mut band_row: usize = first_row;
    proof {
        assert(turns + whole =~= whole);
    }
    while band_row <= WORLD_HEIGHT as usize - band_rows
        invariant
            4 <= band_rows <= WORLD_HEIGHT,
            1 <= from_row <= to_row <= band_rows - 1,
            world.keeps_tables(old(world)),
            turns + pass_turns(band_row as int, band_rows as int, from_row as int, to_row as int) == whole,
            grids.len() == turns.len() + 1,
            grids[0] == old(world).cells(),
            grids[turns.len() as int] == world.cells(),
            forall|k: int| #[trigger] takes_turn(k, turns.len() as int) ==> may_react(grids[k], turns[k].1, grids[k + 1]),
            forall|k: int|
                #[trigger] takes_turn(k, turns.len() as int) ==> match grids[k][turns[k].1 as int] {
                    Some(tile) => match tile.element().periodic_reaction {
                        PeriodicReaction::Custom(hook) => exists|
                            view: NeighborhoodView<'_, Option<Tile>>,
                            out: Option<Tile>,
                        |
                            view.cells() == band_of(
                                grids[k],
                                turns[k].0 as int,
                                band_rows * WORLD_WIDTH as int,
                            ) && view.index == turns[k].1
                                - turns[k].0 && call_ensures(run_hook, (hook, tile, view), out) && grids[k + 1]
                                == with_band(
                                grids[k],
                                turns[k].0 as int,
                                final(view.slice)@.update(turns[k].1 - turns[k].0, out),
                            ),
                        _ => may_react(grids[k], turns[k].1, grids[k + 1]),
                    },
                    None => grids[k + 1] == grids[k],
                },
        decreases WORLD_HEIGHT + band_rows - band_row,
    {
        let ghost earlier = grids;
        let ghost earlier_turns = turns;
        let part = react_through_band(world, band_row, band_rows, from_row, to_row);
        proof {
            let more = band_turns(band_row as int, from_row as int, to_row as int);
            let n = earlier_turns.len() as int;
            turns = earlier_turns + more;
            grids = joined(earlier, part@);
            assert(part@[0] == earlier[n]);
            assert forall|k: int| #[trigger] takes_turn(k, turns.len() as int) implies may_react(
                grids[k],
                turns[k].1,
                grids[k + 1],
            ) by {
                if k < n {
                    assert(takes_turn(k, n));
                    lemma_joined(earlier, part@, k);
                    lemma_joined(earlier, part@, k + 1);
                    assert(turns[k] == earlier_turns[k]);
                } else {
                    let m = k - n;
                    assert(turns[k] == more[m]);
                    lemma_joined(earlier, part@, k);
                    lemma_joined(earlier, part@, k + 1);
                    assert(takes_turn(m, more.len() as int));
                    assert(may_react(part@[m], more[m].1, part@[m + 1]));
                }
            }
            assert forall|k: int| #[trigger] takes_turn(k, turns.len() as int) implies match grids[k][turns[k].1 as int] {
                Some(tile) => match tile.element().periodic_reaction {
                    PeriodicReaction::Custom(hook) => exists|
                        view: NeighborhoodView<'_, Option<Tile>>,
                        out: Option<Tile>,
                    |
                        view.cells() == band_of(
                                grids[k],
                                turns[k].0 as int,
                                band_rows * WORLD_WIDTH as int,
                            ) && view.index == turns[k].1
                            - turns[k].0 && call_ensures(run_hook, (hook, tile, view), out) && grids[k + 1]
                            == with_band(
                            grids[k],
                            turns[k].0 as int,
                            final(view.slice)@.update(turns[k].1 - turns[k].0, out),
                        ),
                    _ => may_react(grids[k], turns[k].1, grids[k + 1]),
                },
                None => grids[k + 1] == grids[k],
            } by {
                if k < n {
                    assert(takes_turn(k, n));
                    lemma_joined(earlier, part@, k);
                    lemma_joined(earlier, part@, k + 1);
                    assert(turns[k] == earlier_turns[k]);
                } else {
                    let m = k - n;
                    assert(takes_turn(m, more.len() as int));
                    assert(turns[k] == more[m]);
                    lemma_joined(earlier, part@, k);
                    lemma_joined(earlier, part@, k + 1);
                }
            }
            assert(grids[turns.len() as int] == world.cells()) by {
                lemma_joined(earlier, part@, turns.len() as int);
            }
            assert(turns + pass_turns(band_row + band_rows, band_rows as int, from_row as int, to_row as int)
                =~= earlier_turns + pass_turns(
                band_row as int,
                band_rows as int,
                from_row as int,
                to_row as int,
            ));
        }
        band_row += band_rows;
    }
    proof {
        assert(turns =~= whole);
    }
    Ghost(grids)
}

/// Runs the periodic reactions band by band, in two passes, and then makes
/// the staged state of every tile visible.
///
/// The bands are `band_rows` rows high. In the first pass the tiles of the
/// inner rows of each band react, within the band. The bands of the second
/// pass lie half a band lower, and in each of them the tiles of its two
/// middle rows react, which are the rows that lay at the edges of the bands
/// of the first pass. The tiles on the edge of the grid never react.
///
/// The tiles react in the order of `turns_in_bands`, and there is a grid
/// before each turn. An empty cell leaves its grid as it is; an inert or
/// decaying tile changes it as `may_react` says; a tile with a behaviour of
/// its own is handed a view of its band, and the next grid is the grid with
/// the band as the behaviour left it through the view, the tile replaced by
/// what the behaviour returned. The commit follows the last turn.
pub fn react_in_bands<
    R: Fn(Tile, Tile) -> (Option<Tile>, Option<Tile>),
    S: for <'a>Fn(Tile, Tile, CollisionView<'a, Option<Tile>>) -> (Option<Tile>, Option<Tile>),
>(world: &mut World<R, S>, band_rows: usize)
    requires
        4 <= band_rows <= WORLD_HEIGHT,
    ensures
        final(world).keeps_tables(old(world)),
        exists|reacted: Cells|
            #[trigger] may_react_in_order(
                old(world).cells(),
                cells_of(turns_in_bands(band_rows as int)),
                reacted,
            ) && final(world).cells() == committed_grid(reacted),
        forall|i: int| 0 <= i < WORLD_CELLS ==> is_settled(#[trigger] final(world).cells()[i]),
        exists|grids: Seq<Cells>|
            #[trigger] is_chain(
                grids,
                old(world).cells(),
                turns_in_bands(band_rows as int).len() as int,
            ) && final(world).cells() == committed_grid(
                grids[turns_in_bands(band_rows as int).len() as int],
            )
                && forall|k: int|
                #[trigger] takes_turn(k, turns_in_bands(band_rows as int).len() as int) ==> {
                    let (start, cell) = turns_in_bands(band_rows as int)[k];
                    match grids[k][cell as int] {
                        Some(tile) => match tile.element().periodic_reaction {
                            PeriodicReaction::Custom(hook) => exists|
                                view: NeighborhoodView<'_, Option<Tile>>,
                                out: Option<Tile>,
                            |
                                view.cells() == band_of(grids[k], start as int, band_rows * WORLD_WIDTH as int) && view.index
                                    == cell - start && call_ensures(run_hook, (hook, tile, view), out)
                                    && grids[k + 1] == with_band(
                                    grids[k],
                                    start as int,
                                    final(view.slice)@.update(cell - start, out),
                                ),
                            _ => may_react(grids[k], cell, grids[k + 1]),
                        },
                        None => grids[k + 1] == grids[k],
                    }
                },
{
    let one = react_through_pass(world, 0, band_rows, 1, band_rows - 1);
    let ghost between = world.cells();
    let two = react_through_pass(
        world,
        band_rows / 2,
        band_rows,
        (band_rows + 1) / 2 - 1,
        (band_rows + 1) / 2 + 1,
    );
    let ghost reacted = world.cells();
    let ghost first = pass_turns(0, band_rows as int, 1, band_rows - 1);
    let ghost second = pass_turns(
        band_rows as int / 2,
        band_rows as int,
        middle_row(band_rows as int),
        middle_row(band_rows as int) + 2,
    );
    let ghost turns = turns_in_bands(band_rows as int);
    let ghost grids = joined(one@, two@);
    proof {
        world.lemma_cell_count();
        let n = first.len() as int;
        assert(turns == first + second);
        assert(two@[0] == one@[n]);
        assert forall|k: int| #[trigger] takes_turn(k, turns.len() as int) implies may_react(
            grids[k],
            turns[k].1,
            grids[k + 1],
        ) by {
            if k < n {
                assert(takes_turn(k, n));
                lemma_joined(one@, two@, k);
                lemma_joined(one@, two@, k + 1);
                assert(turns[k] == first[k]);
            } else {
                let m = k - n;
                assert(turns[k] == second[m]);
                lemma_joined(one@, two@, k);
                lemma_joined(one@, two@, k + 1);
                assert(takes_turn(m, second.len() as int));
                assert(may_react(two@[m], second[m].1, two@[m + 1]));
            }
        }
        assert forall|k: int| #[trigger] takes_turn(k, turns.len() as int) implies match grids[k][turns[k].1 as int] {
            Some(tile) => match tile.element().periodic_reaction {
                PeriodicReaction::Custom(hook) => exists|
                    view: NeighborhoodView<'_, Option<Tile>>,
                    out: Option<Tile>,
                |
                    view.cells() == band_of(
                                grids[k],
                                turns[k].0 as int,
                                band_rows * WORLD_WIDTH as int,
                            ) && view.index == turns[k].1
                        - turns[k].0 && call_ensures(run_hook, (hook, tile, view), out) && grids[k + 1]
                        == with_band(
                        grids[k],
                        turns[k].0 as int,
                        final(view.slice)@.update(turns[k].1 - turns[k].0, out),
                    ),
                _ => may_react(grids[k], turns[k].1, grids[k + 1]),
            },
            None => grids[k + 1] == grids[k],
        } by {
            if k < n {
                assert(takes_turn(k, n));
                lemma_joined(one@, two@, k);
                lemma_joined(one@, two@, k + 1);
                assert(turns[k] == first[k]);
            } else {
                let m = k - n;
                assert(takes_turn(m, second.len() as int));
                assert(turns[k] == second[m]);
                lemma_joined(one@, two@, k);
                lemma_joined(one@, two@, k + 1);
            }
        }
        assert(grids[turns.len() as int] == reacted) by {
            lemma_joined(one@, two@, turns.len() as int);
        }
        assert(grids[0] == old(world).cells()) by {
            lemma_joined(one@, two@, 0);
        }
        lemma_chain_reacts_in_order(old(world).cells(), turns, grids, reacted);
    }
    world.commit_states();
    proof {
        world.lemma_cell_count();
        assert(world.cells() =~= committed_grid(reacted));
        assert(is_chain(grids, old(world).cells(), turns.len() as int));
    }
}

} // verus!
