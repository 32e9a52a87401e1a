use tsp_solver::tour::{exchange_blocks, reverse_range};

#[test]
fn test_debug() {
    let mut a: Vec<usize> = vec![0, 1, 2, 3, 4, 5, 6, 7, 8, 9];
    reverse_range(&mut a, 3, 6);
    assert_eq!(a, vec![0, 1, 2, 5, 4, 3, 6, 7, 8, 9]);
}

#[test]
fn reverse_of_empty_and_single_ranges_changes_nothing() {
    let mut a: Vec<usize> = vec![4, 5, 6];
    reverse_range(&mut a, 1, 1);
    assert_eq!(a, vec![4, 5, 6]);
    reverse_range(&mut a, 2, 3);
    assert_eq!(a, vec![4, 5, 6]);
    reverse_range(&mut a, 0, 3);
    assert_eq!(a, vec![6, 5, 4]);
}

#[test]
fn reverse_of_even_range() {
    let mut a: Vec<usize> = vec![0, 1, 2, 3, 4, 5];
    reverse_range(&mut a, 1, 5);
    assert_eq!(a, vec![0, 4, 3, 2, 1, 5]);
}

#[test]
fn exchange_moves_second_block_in_front() {
    let mut a: Vec<usize> = vec![0, 1, 2, 3, 4, 5, 6, 7];
    exchange_blocks(&mut a, 1, 3, 6);
    assert_eq!(a, vec![0, 3, 4, 5, 1, 2, 6, 7]);
}

#[test]
fn exchange_with_empty_block_changes_nothing() {
    let mut a: Vec<usize> = vec![0, 1, 2, 3];
    exchange_blocks(&mut a, 1, 1, 3);
    assert_eq!(a, vec![0, 1, 2, 3]);
    exchange_blocks(&mut a, 1, 3, 3);
    assert_eq!(a, vec![0, 1, 2, 3]);
}
