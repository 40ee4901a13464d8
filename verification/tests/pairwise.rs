use falling_sand::world::{try_mutate_pair, PairwiseMutate};

#[test]
fn mutate_pair_gives_two_independent_cells() {
    let mut data = vec![10, 20, 30, 40, 50];
    {
        let (a, b) = data.mutate_pair(1, 3);
        assert_eq!((*a, *b), (20, 40));
        *a += 1;
        assert_eq!(*b, 40);
        *b += 2;
        assert_eq!(*a, 21);
    }
    assert_eq!(data, vec![10, 21, 30, 42, 50]);
}

#[test]
fn mutate_pair_keeps_the_order_of_its_arguments() {
    let mut data = vec![10, 20, 30, 40, 50];
    {
        let (a, b) = data.mutate_pair(4, 0);
        assert_eq!((*a, *b), (50, 10));
        *a = 5;
        *b = 1;
    }
    assert_eq!(data, vec![1, 20, 30, 40, 5]);
}

#[test]
fn mutate_pair_reaches_adjacent_cells_and_both_ends() {
    let mut data = [0u8; 4];
    {
        let (a, b) = data.mutate_pair(2, 1);
        *a = 7;
        *b = 9;
    }
    {
        let (a, b) = data.mutate_pair(0, 3);
        *a = 1;
        *b = 4;
    }
    assert_eq!(data, [1, 9, 7, 4]);
}

#[test]
fn every_pair_of_a_small_buffer_is_independent() {
    for i in 0..6usize {
        for j in 0..6usize {
            if i == j {
                continue;
            }
            let mut data = [0i32; 6];
            {
                let (a, b) = data.mutate_pair(i, j);
                *a = 100;
                *b = 200;
            }
            for k in 0..6usize {
                let expected = if k == i {
                    100
                } else if k == j {
                    200
                } else {
                    0
                };
                assert_eq!(data[k], expected);
            }
        }
    }
}

#[test]
fn one_cell_is_not_handed_out_twice() {
    let mut data = vec![10, 20, 30];
    for i in 0..3usize {
        assert!(try_mutate_pair(&mut data, i, i).is_none());
    }
    assert_eq!(data, vec![10, 20, 30]);
}

#[test]
fn no_cell_outside_the_buffer_is_handed_out() {
    let mut data = vec![10, 20, 30];
    assert!(try_mutate_pair(&mut data, 0, 3).is_none());
    assert!(try_mutate_pair(&mut data, 3, 0).is_none());
    assert!(try_mutate_pair(&mut data, 7, 7).is_none());
    let mut empty: Vec<i32> = Vec::new();
    assert!(try_mutate_pair(&mut empty, 0, 1).is_none());
    assert_eq!(data, vec![10, 20, 30]);
}

#[test]
fn two_cells_of_the_buffer_are_handed_out_in_the_order_asked_for() {
    let mut data = vec![10, 20, 30];
    match try_mutate_pair(&mut data, 2, 0) {
        Some((a, b)) => {
            assert_eq!((*a, *b), (30, 10));
            *a = 3;
            assert_eq!(*b, 10);
            *b = 1;
        }
        None => panic!("two different cells of the buffer"),
    }
    assert_eq!(data, vec![1, 20, 3]);
}
