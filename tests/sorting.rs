use sorting_algorithms::{bubble_sort, insertion_sort, merge_sort, quick_sort, selection_sort};

fn quick_sort_all(v: &mut Vec<i32>) {
    if !v.is_empty() {
        let end = v.len() - 1;
        quick_sort(v, 0, end);
    }
}

fn all_sorts() -> Vec<fn(&mut Vec<i32>)> {
    vec![selection_sort, insertion_sort, quick_sort_all, merge_sort, bubble_sort]
}

fn sample_inputs() -> Vec<Vec<i32>> {
    vec![
        vec![],
        vec![7],
        vec![2, 1],
        vec![1, 2],
        vec![5, 3, 8, 1, 2],
        vec![4, 2, 2, 4, 1],
        vec![9, -1, 0, 9, 3],
        vec![5, 5, 5, 5, 5],
        vec![5, 4, 3, 2, 1],
        vec![1, 2, 3, 4, 5, 6],
        vec![i32::MAX, i32::MIN, 0, -1, 1, i32::MAX, i32::MIN],
        vec![3, -7, 3, 0, 12, -7, 8, 8, 1, 0, 99, -100, 42, 3, 3],
    ]
}

fn expected(v: &[i32]) -> Vec<i32> {
    let mut e = v.to_vec();
    e.sort();
    e
}

#[test]
fn selection_sort_scenario() {
    let mut v = vec![5, 3, 8, 1, 2];
    selection_sort(&mut v);
    assert_eq!(v, vec![1, 2, 3, 5, 8]);
}

#[test]
fn insertion_sort_empty() {
    let mut v: Vec<i32> = vec![];
    insertion_sort(&mut v);
    assert_eq!(v, Vec::<i32>::new());
}

#[test]
fn quick_sort_scenario() {
    let mut v = vec![4, 2, 2, 4, 1];
    quick_sort(&mut v, 0, 4);
    assert_eq!(v, vec![1, 2, 2, 4, 4]);
}

#[test]
fn merge_sort_scenario() {
    let mut v = vec![9, -1, 0, 9, 3];
    merge_sort(&mut v);
    assert_eq!(v, vec![-1, 0, 3, 9, 9]);
}

#[test]
fn bubble_sort_already_sorted() {
    let mut v = vec![1, 2, 3];
    bubble_sort(&mut v);
    assert_eq!(v, vec![1, 2, 3]);
}

#[test]
fn quick_sort_all_equal_terminates() {
    let mut v = vec![5, 5, 5, 5, 5];
    quick_sort(&mut v, 0, 4);
    assert_eq!(v, vec![5, 5, 5, 5, 5]);
}

#[test]
fn quick_sort_descending() {
    let mut v = vec![5, 4, 3, 2, 1];
    quick_sort(&mut v, 0, 4);
    assert_eq!(v, vec![1, 2, 3, 4, 5]);
}

#[test]
fn quick_sort_window_only() {
    let mut v = vec![9, 8, 7, 6, 5, 4];
    quick_sort(&mut v, 1, 3);
    assert_eq!(v, vec![9, 6, 7, 8, 5, 4]);
}

#[test]
fn quick_sort_window_at_end() {
    let mut v = vec![3, 1, 2, 0, -5, 7, -6];
    quick_sort(&mut v, 4, 6);
    assert_eq!(v, vec![3, 1, 2, 0, -6, -5, 7]);
}

#[test]
fn quick_sort_single_element_window() {
    let mut v = vec![3, 1, 2];
    quick_sort(&mut v, 1, 1);
    assert_eq!(v, vec![3, 1, 2]);
}

#[test]
fn quick_sort_reversed_window_is_noop() {
    let mut v = vec![3, 1, 2];
    quick_sort(&mut v, 2, 0);
    assert_eq!(v, vec![3, 1, 2]);
}

#[test]
fn every_sort_orders_and_permutes() {
    for sort in all_sorts() {
        for input in sample_inputs() {
            let mut v = input.clone();
            sort(&mut v);
            assert_eq!(v, expected(&input));
        }
    }
}

#[test]
fn every_sort_is_idempotent() {
    for sort in all_sorts() {
        for input in sample_inputs() {
            let mut once = input.clone();
            sort(&mut once);
            let mut twice = once.clone();
            sort(&mut twice);
            assert_eq!(twice, once);
        }
    }
}

#[test]
fn every_sort_keeps_empty_and_singleton() {
    for sort in all_sorts() {
        let mut empty: Vec<i32> = vec![];
        sort(&mut empty);
        assert!(empty.is_empty());
        let mut one = vec![-42];
        sort(&mut one);
        assert_eq!(one, vec![-42]);
    }
}

#[test]
fn every_sort_handles_extremes() {
    for sort in all_sorts() {
        let mut v = vec![i32::MAX, 0, i32::MIN];
        sort(&mut v);
        assert_eq!(v, vec![i32::MIN, 0, i32::MAX]);
    }
}

#[test]
fn every_sort_gives_the_same_result() {
    for input in sample_inputs() {
        let mut results = Vec::new();
        for sort in all_sorts() {
            let mut v = input.clone();
            sort(&mut v);
            results.push(v);
        }
        for r in &results {
            assert_eq!(r, &results[0]);
        }
    }
}

#[test]
fn merge_sort_odd_and_even_lengths() {
    let mut odd = vec![3, 1, 2];
    merge_sort(&mut odd);
    assert_eq!(odd, vec![1, 2, 3]);
    let mut even = vec![4, 3, 2, 1];
    merge_sort(&mut even);
    assert_eq!(even, vec![1, 2, 3, 4]);
}

#[test]
fn insertion_sort_new_minimum_shifts_to_front() {
    let mut v = vec![2, 3, 4, 1];
    insertion_sort(&mut v);
    assert_eq!(v, vec![1, 2, 3, 4]);
}

#[test]
fn bubble_sort_empty() {
    let mut v: Vec<i32> = vec![];
    bubble_sort(&mut v);
    assert!(v.is_empty());
}
