use tree::index::{page_window, VecIndex};
use tree::vector::IntVector;

fn index_of(dim: usize, items: Vec<(u128, Vec<u64>)>) -> VecIndex<IntVector> {
    let items = items
        .into_iter()
        .map(|(k, v)| (k, IntVector::from_components(v)))
        .collect();
    VecIndex::build(dim, items).expect("dimensions agree")
}

#[test]
fn orthogonal_vectors_rank_their_own_query_first() {
    // three mutually orthogonal vectors of equal norm
    let ix = index_of(
        3,
        vec![(1, vec![5, 0, 0]), (2, vec![0, 5, 0]), (3, vec![0, 0, 5])],
    );
    let q = IntVector::from_components(vec![0, 5, 0]);
    let r = ix.search(&q, 3);
    assert_eq!(r.len(), 3);
    assert_eq!(r[0].0, 2);
    assert_eq!(r[0].1, 25);
    assert!(r[0].1 > r[1].1);
    assert!(r[1].1 >= r[2].1);
}

#[test]
fn equal_scores_break_ties_by_key_and_repeat_identically() {
    let ix = index_of(2, vec![(7, vec![1, 1]), (3, vec![1, 1]), (9, vec![0, 0])]);
    let q = IntVector::from_components(vec![2, 2]);
    let a = ix.search(&q, 3);
    let b = ix.search(&q, 3);
    assert_eq!(a, b);
    assert_eq!(a[0].0, 3);
    assert_eq!(a[1].0, 7);
    assert_eq!(a[2].0, 9);
}

#[test]
fn search_returns_at_most_k() {
    let ix = index_of(1, vec![(1, vec![1]), (2, vec![2]), (3, vec![3])]);
    let q = IntVector::from_components(vec![1]);
    assert_eq!(ix.search(&q, 2).len(), 2);
    assert_eq!(ix.search(&q, 10).len(), 3);
    assert_eq!(ix.search(&q, 0).len(), 0);
}

#[test]
fn page_window_takes_the_requested_slice() {
    // the caller fetches the first page · size neighbors, then slices
    let fetched: Vec<(u128, u64)> = (1..=4u128).map(|k| (k, 100 - k as u64)).collect();
    let w = page_window(fetched.clone(), 2, 2);
    assert_eq!(w, vec![(3, 97), (4, 96)]);
    let beyond = page_window(fetched.clone(), 3, 4);
    assert_eq!(beyond, vec![]);
    let all = page_window(fetched.clone(), 1, 10);
    assert_eq!(all, fetched);
}

#[test]
fn searching_an_empty_index_returns_nothing() {
    let ix = index_of(2, vec![]);
    let q = IntVector::from_components(vec![1, 2]);
    assert_eq!(ix.search(&q, 5), vec![]);
}
