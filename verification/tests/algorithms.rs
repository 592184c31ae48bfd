use persistent_collections::matrix::rotate90;
use persistent_collections::search::binary_search;
use persistent_collections::sorting::quicksort;

#[test]
fn lib_test_quicksort() {
    let v = vec![9, 45, 12, 1, 0, -21, 5, -1];
    let expected = vec![-21, -1, 0, 1, 5, 9, 12, 45];
    let actual = quicksort(v);
    assert_eq!(actual, expected);
}

#[test]
fn lib_test_bindary_search() {
    let v = vec![-21, -1, 0, 1, 5, 9, 12, 45];
    assert_eq!(binary_search(&v, 0), Some(0));
    assert_eq!(binary_search(&v, 1), Some(1));
    assert_eq!(binary_search(&v, -21), Some(-21));
    assert_eq!(binary_search(&v, 4), None);
}

#[test]
fn test_quicksort() {
    let v = vec![9, 45, 12, 1, 0, -21, 5, -1];
    let expected = vec![-21, -1, 0, 1, 5, 9, 12, 45];
    let actual = quicksort(v);
    assert_eq!(actual, expected);
}

#[test]
fn test_bindary_search() {
    let v = vec![-21, -1, 0, 1, 5, 9, 12, 45];
    assert_eq!(binary_search(&v, 0), Some(0));
    assert_eq!(binary_search(&v, 1), Some(1));
    assert_eq!(binary_search(&v, -21), Some(-21));
    assert_eq!(binary_search(&v, 4), None);
}

#[test]
fn test_rotate90() {
    let input = vec![vec![1, 2, 3], vec![4, 5, 6], vec![7, 8, 9]];
    let expected = vec![vec![7, 4, 1], vec![8, 5, 2], vec![9, 6, 3]];
    assert_eq!(rotate90(&input), expected);
}

#[test]
fn test_quicksort_empty_and_single() {
    assert_eq!(quicksort(Vec::<i32>::new()), Vec::<i32>::new());
    assert_eq!(quicksort(vec![3]), vec![3]);
}

#[test]
fn test_quicksort_duplicates() {
    let v = vec![5, 1, 5, -2, 5, 1];
    assert_eq!(quicksort(v), vec![-2, 1, 1, 5, 5, 5]);
}

#[test]
fn test_binary_search_empty_and_bounds() {
    let empty: Vec<i32> = Vec::new();
    assert_eq!(binary_search(&empty, 3), None);
    let v = vec![2, 4, 6];
    assert_eq!(binary_search(&v, 1), None);
    assert_eq!(binary_search(&v, 7), None);
    assert_eq!(binary_search(&v, 6), Some(6));
}

#[test]
fn test_rotate90_small() {
    let empty: Vec<Vec<i32>> = Vec::new();
    assert_eq!(rotate90(&empty), Vec::<Vec<i32>>::new());
    let one = vec![vec![8]];
    assert_eq!(rotate90(&one), vec![vec![8]]);
}

#[test]
fn test_rotate90_two_by_two() {
    let input = vec![vec![1, 2], vec![3, 4]];
    let expected = vec![vec![3, 1], vec![4, 2]];
    assert_eq!(rotate90(&input), expected);
}
