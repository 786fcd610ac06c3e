use sorting_algorithms::{algorithm_from_code, create_random_vector, sort_with, Algorithm, Options};

#[test]
fn build_keeps_fields() {
    let o = Options::build(12, String::from("q"));
    assert_eq!(o.size, 12);
    assert_eq!(o.algorithm, "q");
}

#[test]
fn codes_name_algorithms() {
    assert_eq!(algorithm_from_code("s"), Some(Algorithm::Selection));
    assert_eq!(algorithm_from_code("q"), Some(Algorithm::Quick));
    assert_eq!(algorithm_from_code("i"), Some(Algorithm::Insertion));
    assert_eq!(algorithm_from_code("m"), Some(Algorithm::Merge));
    assert_eq!(algorithm_from_code("b"), Some(Algorithm::Bubble));
}

#[test]
fn unknown_codes_name_nothing() {
    assert_eq!(algorithm_from_code("x"), None);
    assert_eq!(algorithm_from_code(""), None);
    assert_eq!(algorithm_from_code("ss"), None);
    assert_eq!(algorithm_from_code("S"), None);
}

#[test]
fn sort_with_every_algorithm() {
    let all = [
        Algorithm::Selection,
        Algorithm::Quick,
        Algorithm::Insertion,
        Algorithm::Merge,
        Algorithm::Bubble,
    ];
    for a in all {
        let mut v = vec![9, -1, 0, 9, 3];
        sort_with(a, &mut v);
        assert_eq!(v, vec![-1, 0, 3, 9, 9]);
        let mut empty: Vec<i32> = vec![];
        sort_with(a, &mut empty);
        assert!(empty.is_empty());
    }
}

#[test]
fn random_vector_has_size_and_range() {
    let v = create_random_vector(500);
    assert_eq!(v.len(), 500);
    assert!(v.iter().all(|x| (0..100).contains(x)));
    assert!(v.iter().any(|x| *x != v[0]));
}

#[test]
fn random_vector_empty() {
    assert!(create_random_vector(0).is_empty());
}
