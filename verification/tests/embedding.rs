use tree::embed::{get_chunk_embedding, get_sentence_embedding};
use tree::enrich::StubEnricher;
use tree::table::{get_word_embedding, MemTable, WordTable};
use tree::vector::{IntVector, VectorArith};

fn table(dim: usize, words: &[(&str, &[u64])]) -> MemTable {
    let mut t = MemTable::new(dim);
    for (w, comps) in words {
        t.insert(String::from(*w), IntVector::from_components(comps.to_vec()));
    }
    t
}

#[test]
fn word_embedding_is_case_insensitive() {
    let t = table(2, &[("hello", &[1, 2])]);
    let a = get_word_embedding(&t, "HeLLo").expect("mixed case resolves");
    let b = get_word_embedding(&t, "hello").expect("lower case resolves");
    assert_eq!(a.components(), &vec![1, 2]);
    assert_eq!(a.components(), b.components());
}

#[test]
fn word_embedding_is_stable_across_calls() {
    let t = table(1, &[("word", &[9])]);
    let a = get_word_embedding(&t, "word").unwrap();
    let b = get_word_embedding(&t, "word").unwrap();
    assert_eq!(a.components(), b.components());
    assert!(get_word_embedding(&t, "other").is_none());
}

#[test]
fn chunk_embedding_of_empty_text_is_absent() {
    let t = table(2, &[("hello", &[1, 2])]);
    assert!(get_chunk_embedding(&t, "").is_none());
    assert!(get_chunk_embedding(&t, "   ").is_none());
}

#[test]
fn chunk_embedding_of_zero_sum_is_absent() {
    // the two vectors wrap to the exact zero vector
    let t = table(1, &[("a", &[1]), ("b", &[u64::MAX])]);
    assert!(get_chunk_embedding(&t, "a b").is_none());
}

#[test]
fn chunk_embedding_divides_by_total_token_count() {
    // one resolved and one unresolved token: the sum is still divided by 2
    let t = table(2, &[("x", &[4, 6])]);
    let v = get_chunk_embedding(&t, "x unknown").expect("one token resolves");
    assert_eq!(v.components(), &vec![2, 3]);
}

#[test]
fn chunk_embedding_of_unresolvable_text_is_absent() {
    let t = table(2, &[("x", &[4, 6])]);
    assert!(get_chunk_embedding(&t, "nothing matches here").is_none());
}

#[test]
fn sentence_embedding_is_deterministic_with_stub() {
    let t = table(2, &[("big", &[10, 0]), ("word", &[2, 0])]);
    let mut c = StubEnricher::new();
    c.add_resolution(String::from("qux"), String::from("res"));
    c.add_summary(String::from("res"), String::from("big word"));
    let a = get_sentence_embedding(&t, &c, "qux").expect("enrichment fills in");
    let b = get_sentence_embedding(&t, &c, "qux").expect("and again");
    // chunk("big word") = [12, 0] / 2 = [6, 0]; one query token divides by 1
    assert_eq!(a.components(), &vec![6, 0]);
    assert_eq!(a.components(), b.components());
}

#[test]
fn sentence_embedding_skips_failed_enrichment() {
    let t = table(2, &[("x", &[4, 6])]);
    let c = StubEnricher::new();
    let v = get_sentence_embedding(&t, &c, "x zzz").expect("resolved token carries");
    assert_eq!(v.components(), &vec![2, 3]);
    assert!(get_sentence_embedding(&t, &c, "zzz").is_none());
}

#[test]
fn sentence_embedding_enrichment_without_summary_contributes_nothing() {
    let t = table(1, &[("x", &[8])]);
    let mut c = StubEnricher::new();
    c.add_resolution(String::from("zzz"), String::from("res"));
    // no summary for "res": the unresolved token adds nothing
    let v = get_sentence_embedding(&t, &c, "x zzz").unwrap();
    assert_eq!(v.components(), &vec![4]);
}

#[test]
fn int_vector_arithmetic() {
    let a = IntVector::from_components(vec![1, u64::MAX]);
    let b = IntVector::from_components(vec![2, 1]);
    assert_eq!(a.add(&b).components(), &vec![3, 0]);
    assert_eq!(a.scale_down(2).components(), &vec![0, u64::MAX / 2]);
    assert!(IntVector::zeros(3).is_zero());
    assert!(!b.is_zero());
    assert_eq!(b.similarity(&b), 5);
    assert_eq!(IntVector::zeros(2).dim(), 2);
}
