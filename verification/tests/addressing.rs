use falling_sand::{
    above, adjacent_x, adjacent_y, below, coords, in_bounds, left, neighbor_count, neighbors,
    point, raw_neighbors, right, WORLD_HEIGHT, WORLD_SIZE, WORLD_WIDTH,
};

#[test]
fn world_is_two_hundred_by_two_hundred() {
    assert_eq!(WORLD_WIDTH, 200);
    assert_eq!(WORLD_HEIGHT, 200);
    assert_eq!(WORLD_SIZE, 40000);
}

#[test]
fn point_is_row_major() {
    assert_eq!(point(0, 0), 0);
    assert_eq!(point(10, 10), 2010);
    assert_eq!(point(199, 199), 39999);
    assert_eq!(point(3, 1), 203);
}

#[test]
fn coords_undo_point() {
    assert_eq!(coords(0), (0, 0));
    assert_eq!(coords(2010), (10, 10));
    assert_eq!(coords(39999), (199, 199));
    for &(x, y) in &[(0, 0), (5, 7), (199, 0), (0, 199), (123, 45)] {
        assert_eq!(coords(point(x, y)), (x, y));
    }
}

#[test]
fn in_bounds_rejects_the_outside() {
    assert!(in_bounds(0, 0));
    assert!(in_bounds(199, 199));
    assert!(!in_bounds(-1, 0));
    assert!(!in_bounds(0, -1));
    assert!(!in_bounds(200, 0));
    assert!(!in_bounds(0, 200));
}

#[test]
fn steps_stop_at_the_ends_of_the_grid() {
    assert_eq!(above(0), None);
    assert_eq!(above(199), None);
    assert_eq!(above(200), Some(0));
    assert_eq!(below(0), Some(200));
    assert_eq!(below(39799), Some(39999));
    assert_eq!(below(39800), None);
    assert_eq!(left(0), None);
    assert_eq!(left(1), Some(0));
    assert_eq!(right(39998), Some(39999));
    assert_eq!(right(39999), None);
    assert_eq!(above(40200), None);
    assert_eq!(left(40001), None);
}

#[test]
fn steps_to_the_side_stop_at_the_ends_of_a_row() {
    assert_eq!(left(200), None);
    assert_eq!(left(201), Some(200));
    assert_eq!(right(199), None);
    assert_eq!(right(198), Some(199));
    assert_eq!(left(39800), None);
    assert_eq!(right(39799), None);
    assert_eq!(left(399), Some(398));
    assert_eq!(right(200), Some(201));
    // The last cell of a row and the first of the next are no neighbours
    // to the side.
    assert!(!adjacent_x(199, 200));
    assert!(!adjacent_x(200, 199));
    assert!(adjacent_x(198, 199));
}

#[test]
fn adjacency_is_one_step() {
    assert!(adjacent_x(500, 501));
    assert!(adjacent_x(501, 500));
    assert!(!adjacent_x(500, 502));
    assert!(!adjacent_x(500, 700));
    assert!(!adjacent_x(500, 500));
    assert!(adjacent_y(500, 700));
    assert!(adjacent_y(700, 500));
    assert!(!adjacent_y(500, 501));
    assert!(!adjacent_y(0, 0));
}

#[test]
fn neighbors_of_an_inner_cell_come_column_by_column() {
    let index = point(10, 10);
    let expected = vec![
        point(9, 9),
        point(9, 10),
        point(9, 11),
        point(10, 9),
        point(10, 11),
        point(11, 9),
        point(11, 10),
        point(11, 11),
    ];
    assert_eq!(neighbors(index), expected);
    assert_eq!(raw_neighbors(index), expected);
}

#[test]
fn neighbors_of_a_corner_are_three() {
    assert_eq!(neighbors(0), vec![200, 1, 201]);
    assert_eq!(neighbors(39999), vec![39798, 39998, 39799]);
    assert_eq!(neighbors(199), vec![198, 398, 399]);
}

#[test]
fn neighbors_of_an_edge_cell_are_five() {
    assert_eq!(
        neighbors(point(0, 5)),
        vec![point(0, 4), point(0, 6), point(1, 4), point(1, 5), point(1, 6)]
    );
}

#[test]
fn raw_neighbors_do_not_mind_the_columns() {
    // Column 0 of row 5: the cells "to the left" are the ends of the rows before.
    let index = point(0, 5);
    assert_eq!(
        raw_neighbors(index),
        vec![
            index - 201,
            index - 1,
            index + 199,
            index - 200,
            index + 200,
            index - 199,
            index + 1,
            index + 201
        ]
    );
}

#[test]
fn neighbor_count_counts_what_the_predicate_accepts() {
    let index = point(10, 10);
    assert_eq!(neighbor_count(index, |_| true), 8);
    assert_eq!(neighbor_count(index, |_| false), 0);
    assert_eq!(neighbor_count(index, |cell| cell < index), 4);
    assert_eq!(neighbor_count(0, |_| true), 3);
    assert_eq!(neighbor_count(index, |cell| cell % 200 == 10), 2);
}
