use std::collections::HashMap;

use falling_sand::catalog::{FIRE_ID, ROCK_ID, SAND_ID, SNOW_ID, WALL_ID, WATER_ID};
use falling_sand::chunk_view::{Chunk, ChunkIndex, ChunkView, CollisionChunkView};
use falling_sand::element::ElementId;
use falling_sand::snow::melt;
use falling_sand::tile::{ElementState, Tile, Vector};
use falling_sand::world::{pair_key, wake_cells, Neighborhood};
use falling_sand::world_view::{for_each_around, CollisionView, NeighborhoodIndex, NeighborhoodView};

const WIDE: usize = 200;
const MIDDLE: usize = 3 * WIDE + 7;

fn numbers() -> Vec<u32> {
    (0..(8 * WIDE) as u32).collect()
}

fn raw_around(center: usize) -> Vec<usize> {
    vec![
        center - WIDE - 1,
        center - 1,
        center + WIDE - 1,
        center - WIDE,
        center + WIDE,
        center - WIDE + 1,
        center + 1,
        center + WIDE + 1,
    ]
}

type BandReaction = fn(Tile, Tile) -> (Option<Tile>, Option<Tile>);
type BandSideEffect =
    for<'a> fn(Tile, Tile, CollisionChunkView<'a, Option<Tile>>) -> (Option<Tile>, Option<Tile>);

fn band_tile(element: u8, vx: i8, vy: i8) -> Tile {
    Tile::new(
        ElementState::default(ElementId(element)),
        Vector { x: 0, y: 0 },
        Vector { x: vx, y: vy },
        20,
    )
}

fn lift(first: Tile, second: Tile, mut view: CollisionChunkView<'_, Option<Tile>>) -> (Option<Tile>, Option<Tile>) {
    let above = ChunkIndex::new(view.first_index - WIDE);
    *view.index_mut(above) = Some(second);
    (Some(first), None)
}

#[test]
fn a_neighborhood_view_reaches_the_cells_round_its_cell() {
    let mut cells = numbers();
    let mut view = NeighborhoodView::new(&mut cells, MIDDLE);
    assert!(view.surrounded());
    let listed: Vec<usize> = view.neighbors().iter().map(|index| index.0).collect();
    assert_eq!(listed, raw_around(MIDDLE));
    assert_eq!(*view.above(), (MIDDLE - WIDE) as u32);
    assert_eq!(*view.below(), (MIDDLE + WIDE) as u32);
    assert_eq!(*view.index(NeighborhoodIndex::new(3)), 3);
    *view.above() = 1;
    *view.below() = 2;
    *view.index_mut(NeighborhoodIndex::new(0)) = 3;
    let mut visited = Vec::new();
    view.for_each_neighbor(|cell| {
        visited.push(*cell);
        *cell += 10_000;
    });
    let mut expected: Vec<u32> = raw_around(MIDDLE).iter().map(|&i| i as u32).collect();
    expected[3] = 1;
    expected[4] = 2;
    assert_eq!(visited, expected);
    for (i, &cell) in cells.iter().enumerate() {
        let plain = match i {
            0 => 3,
            i if i == MIDDLE - WIDE => 1,
            i if i == MIDDLE + WIDE => 2,
            i => i as u32,
        };
        if raw_around(MIDDLE).contains(&i) {
            assert_eq!(cell, plain + 10_000);
        } else {
            assert_eq!(cell, plain);
        }
    }
}

#[test]
fn a_view_at_the_edge_is_not_surrounded() {
    let mut cells = numbers();
    let last = cells.len() - 1;
    assert!(!NeighborhoodView::new(&mut cells, 0).surrounded());
    assert!(!NeighborhoodView::new(&mut cells, WIDE).surrounded());
    assert!(NeighborhoodView::new(&mut cells, WIDE + 1).surrounded());
    assert!(!NeighborhoodView::new(&mut cells, last).surrounded());
    assert!(!NeighborhoodView::new(&mut cells, last - WIDE).surrounded());
    assert!(NeighborhoodView::new(&mut cells, last - WIDE - 1).surrounded());
}

#[test]
fn a_collision_view_leaves_the_other_particle_out() {
    let mut cells = numbers();
    let mut view = CollisionView::new(&mut cells, MIDDLE, MIDDLE + 1);
    assert_eq!(view.first().index, MIDDLE);
    assert_eq!(view.second().index, MIDDLE + 1);
    assert_eq!(*view.index(NeighborhoodIndex::new(9)), 9);
    *view.index_mut(NeighborhoodIndex::new(9)) = 90;
    let mut of_first = Vec::new();
    view.for_neighbors_of_first(|cell| {
        of_first.push(*cell);
        *cell = 0;
    });
    let mut of_second = Vec::new();
    view.for_neighbors_of_second(|cell| {
        of_second.push(*cell);
        *cell = 1;
    });
    let expected_first: Vec<u32> = raw_around(MIDDLE)
        .into_iter()
        .filter(|&i| i != MIDDLE + 1)
        .map(|i| i as u32)
        .collect();
    assert_eq!(of_first, expected_first);
    assert_eq!(of_second.len(), 7);
    assert_eq!(cells[MIDDLE], MIDDLE as u32);
    assert_eq!(cells[MIDDLE + 1], (MIDDLE + 1) as u32);
    assert_eq!(cells[9], 90);
    // The cells round both were written last by the second pass.
    assert_eq!(cells[MIDDLE - WIDE], 1);
    assert_eq!(cells[MIDDLE - WIDE - 1], 0);
    assert_eq!(cells[MIDDLE + WIDE + 2], 1);
}

#[test]
fn for_each_around_visits_eight_cells_in_order() {
    let mut cells = numbers();
    let mut visited = Vec::new();
    for_each_around(&mut cells, MIDDLE, None, |cell: &mut u32| visited.push(*cell as usize));
    assert_eq!(visited, raw_around(MIDDLE));
    let mut visited = Vec::new();
    for_each_around(&mut cells, MIDDLE, Some(MIDDLE - 1), |cell: &mut u32| {
        visited.push(*cell as usize)
    });
    assert_eq!(visited.len(), 7);
    assert!(!visited.contains(&(MIDDLE - 1)));
    let mut visited = Vec::new();
    for_each_around(&mut cells, MIDDLE, Some(5), |cell: &mut u32| visited.push(*cell as usize));
    assert_eq!(visited, raw_around(MIDDLE));
}

#[test]
fn the_neighbourhood_of_the_grid_is_walked_row_by_row() {
    let mut cells = numbers();
    let (before, rest) = cells.split_at_mut(MIDDLE);
    let (center, after) = rest.split_at_mut(1);
    center[0] = 0;
    let mut hood = Neighborhood::new(before, after);
    let mut visited = Vec::new();
    hood.for_each(|cell| visited.push(*cell as usize));
    assert_eq!(
        visited,
        vec![
            MIDDLE - WIDE - 1,
            MIDDLE - WIDE,
            MIDDLE - WIDE + 1,
            MIDDLE - 1,
            MIDDLE + 1,
            MIDDLE + WIDE - 1,
            MIDDLE + WIDE,
            MIDDLE + WIDE + 1,
        ]
    );
}

#[test]
fn a_chunk_view_lists_the_neighbours_that_lie_in_the_grid() {
    let mut cells = numbers();
    let mut view = ChunkView::new(&mut cells, MIDDLE);
    let listed: Vec<usize> = view.neighbors().iter().map(|index| index.0).collect();
    assert_eq!(listed, raw_around(MIDDLE));
    assert_eq!(*view.above(), (MIDDLE - WIDE) as u32);
    assert_eq!(*view.below(), (MIDDLE + WIDE) as u32);
    assert_eq!(*view.index(ChunkIndex::new(4)), 4);
    *view.index_mut(ChunkIndex::new(4)) = 40;
    let mut count = 0;
    view.for_each_neighbor(|cell| {
        *cell = 7;
        count += 1;
    });
    assert_eq!(count, 8);
    let corner = ChunkView::new(&mut cells, 0);
    let listed: Vec<usize> = corner.neighbors().iter().map(|index| index.0).collect();
    assert_eq!(listed, vec![WIDE, 1, WIDE + 1]);
    assert_eq!(cells[4], 40);
    assert_eq!(cells[MIDDLE + 1], 7);
    assert_eq!(cells[MIDDLE], MIDDLE as u32);
}

#[test]
fn a_collision_chunk_view_leaves_the_other_particle_out() {
    let mut cells = numbers();
    let mut view = CollisionChunkView::new(&mut cells, MIDDLE, MIDDLE + WIDE);
    assert_eq!(view.first().index, MIDDLE);
    assert_eq!(view.second().index, MIDDLE + WIDE);
    assert_eq!(*view.index(ChunkIndex::new(2)), 2);
    *view.index_mut(ChunkIndex::new(2)) = 20;
    let mut of_first = 0;
    view.for_neighbors_of_first(|cell| {
        *cell = 0;
        of_first += 1;
    });
    let mut of_second = 0;
    view.for_neighbors_of_second(|cell| {
        *cell = 1;
        of_second += 1;
    });
    assert_eq!((of_first, of_second), (7, 7));
    assert_eq!(cells[MIDDLE], MIDDLE as u32);
    assert_eq!(cells[MIDDLE + WIDE], (MIDDLE + WIDE) as u32);
    assert_eq!(cells[MIDDLE - WIDE], 0);
    assert_eq!(cells[MIDDLE + 2 * WIDE], 1);
    assert_eq!(cells[2], 20);
}

#[test]
fn wake_cells_wakes_a_pile() {
    let mut sleeper = band_tile(SAND_ID, 0, 0);
    sleeper.paused = true;
    let mut cells: Vec<Option<Tile>> = vec![None; 6 * WIDE];
    cells[5 * WIDE + 3] = Some(sleeper);
    cells[4 * WIDE + 3] = Some(sleeper);
    cells[2 * WIDE + 3] = Some(sleeper);
    wake_cells(&mut cells, Some(5 * WIDE + 3));
    assert!(!cells[5 * WIDE + 3].unwrap().paused);
    assert!(!cells[4 * WIDE + 3].unwrap().paused);
    assert!(cells[2 * WIDE + 3].unwrap().paused);
    wake_cells(&mut cells, Some(100 * WIDE));
    wake_cells(&mut cells, None);
    assert!(cells[2 * WIDE + 3].unwrap().paused);
}

#[test]
fn a_chunk_moves_and_collides_like_the_grid() {
    let side_effects: HashMap<u16, BandSideEffect> = HashMap::new();
    let reactions: HashMap<u16, BandReaction> = HashMap::new();
    let mut cells: Vec<Option<Tile>> = vec![None; 8 * WIDE];
    let mut sleeper = band_tile(SAND_ID, 0, 0);
    sleeper.paused = true;
    cells[MIDDLE] = Some(band_tile(SAND_ID, 10, 4));
    cells[MIDDLE - WIDE] = Some(sleeper);
    cells[MIDDLE + 2] = Some(band_tile(WALL_ID, 0, 0));
    {
        let mut chunk = Chunk::new(&mut cells, &side_effects, &reactions);
        assert!(chunk.index(ChunkIndex::new(MIDDLE)).is_some());
        chunk.move_particle(ChunkIndex::new(MIDDLE), 1, 0);
        assert!(chunk.index(ChunkIndex::new(MIDDLE)).is_none());
        assert!(chunk.index(ChunkIndex::new(MIDDLE + 1)).is_some());
        // Against the wall.
        chunk.move_particle(ChunkIndex::new(MIDDLE + 1), 5, 0);
        let view = chunk.create_view(ChunkIndex::new(MIDDLE + 1));
        assert_eq!(view.index, MIDDLE + 1);
    }
    assert!(!cells[MIDDLE - WIDE].unwrap().paused);
    let sand = cells[MIDDLE + 1].unwrap();
    assert_eq!(sand.velocity, Vector { x: -5, y: 4 });
    assert_eq!(cells[MIDDLE + 2].unwrap().element_id(), WALL_ID);
    {
        let mut chunk = Chunk::new(&mut cells, &side_effects, &reactions);
        chunk.move_particle(ChunkIndex::new(MIDDLE + 1), -1, 9);
        *chunk.index_mut(ChunkIndex::new(0)) = Some(band_tile(ROCK_ID, 0, 0));
        chunk.swap(0, 1);
    }
    assert!(cells[MIDDLE + 1].is_none());
    assert_eq!(cells[MIDDLE + WIDE].unwrap().velocity, Vector { x: -5, y: 4 });
    assert_eq!(cells[1].unwrap().element_id(), ROCK_ID);
    assert!(cells[0].is_none());
}

#[test]
fn a_chunk_lets_its_reactions_loose_on_a_collision() {
    let mut side_effects: HashMap<u16, BandSideEffect> = HashMap::new();
    let mut reactions: HashMap<u16, BandReaction> = HashMap::new();
    reactions.insert(pair_key(FIRE_ID, SNOW_ID), melt);
    side_effects.insert(pair_key(SAND_ID, WATER_ID), lift);
    let mut cells: Vec<Option<Tile>> = vec![None; 8 * WIDE];
    cells[MIDDLE] = Some(band_tile(SNOW_ID, 0, 0));
    cells[MIDDLE + 1] = Some(band_tile(FIRE_ID, 0, 0));
    cells[MIDDLE + 10] = Some(band_tile(WATER_ID, 0, 0));
    cells[MIDDLE + 11] = Some(band_tile(SAND_ID, 0, 0));
    cells[MIDDLE + 20] = Some(band_tile(ROCK_ID, 0, 0));
    cells[MIDDLE + 21] = Some(band_tile(SAND_ID, 0, 0));
    {
        let mut chunk = Chunk::new(&mut cells, &side_effects, &reactions);
        assert!(chunk.trigger_collision_side_effects(
            ChunkIndex::new(MIDDLE),
            ChunkIndex::new(MIDDLE + 1)
        ));
        assert!(chunk.trigger_collision_side_effects(
            ChunkIndex::new(MIDDLE + 10),
            ChunkIndex::new(MIDDLE + 11)
        ));
        assert!(!chunk.trigger_collision_side_effects(
            ChunkIndex::new(MIDDLE + 20),
            ChunkIndex::new(MIDDLE + 21)
        ));
    }
    // In a band what a reaction returns is stored as it is: the change is staged.
    let snow = cells[MIDDLE].unwrap();
    assert_eq!(snow.element_id(), SNOW_ID);
    assert_eq!(snow.element_data.staged, ElementState::default(ElementId(WATER_ID)));
    assert_eq!(cells[MIDDLE + 1].unwrap().element_id(), FIRE_ID);
    // The side effect got the sand first, and put the water above it.
    assert_eq!(cells[MIDDLE + 11].unwrap().element_id(), SAND_ID);
    assert!(cells[MIDDLE + 10].is_none());
    assert_eq!(cells[MIDDLE + 11 - WIDE].unwrap().element_id(), WATER_ID);
    assert_eq!(cells[MIDDLE + 20].unwrap().element_id(), ROCK_ID);
}

#[test]
fn work_in_bands_agrees_with_work_on_the_whole_grid() {
    let rows = 12;
    let band_rows = 4;
    // The work on a cell: it gives each cell round it one more than its own number.
    let mut whole: Vec<u32> = vec![0; rows * WIDE];
    for row in 1..rows - 1 {
        for column in 1..WIDE - 1 {
            let mut view = NeighborhoodView::new(&mut whole, row * WIDE + column);
            view.for_each_neighbor(|cell| *cell += (column % 7) as u32 + 1);
        }
    }
    let mut banded: Vec<u32> = vec![0; rows * WIDE];
    // The first pass takes the bands as they lie, the second half a band lower.
    for offset in [0, band_rows / 2] {
        let mut start = offset;
        while start + band_rows <= rows {
            let band = &mut banded[start * WIDE..(start + band_rows) * WIDE];
            for row in 1..band_rows - 1 {
                for column in 1..WIDE - 1 {
                    let mut view = ChunkView::new(band, row * WIDE + column);
                    view.for_each_neighbor(|cell| *cell += (column % 7) as u32 + 1);
                }
            }
            start += band_rows;
        }
    }
    assert_eq!(whole, banded);
    assert!(whole.iter().any(|&cell| cell > 0));
}
