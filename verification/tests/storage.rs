use tree::entry::{language_or_unk, CrawledEntry};
use tree::index::{rebuild_index, IndexError, VecIndex};
use tree::store::{put_entry, EntryStore, GetOutcome, MemStore};
use tree::vector::IntVector;

fn entry(url: &str, title: &str, comps: Vec<u64>) -> CrawledEntry<IntVector> {
    CrawledEntry {
        url: String::from(url),
        title: String::from(title),
        header: String::from("h"),
        description: String::from("d"),
        vector: IntVector::from_components(comps),
        language: String::from("en"),
    }
}

#[test]
fn put_entry_keys_by_url_uuid() {
    let mut s: MemStore<IntVector> = MemStore::new();
    put_entry(&mut s, entry("http://example.com/", "t", vec![1, 2]));
    let key = uuid::Uuid::new_v5(&uuid::Uuid::NAMESPACE_URL, "http://example.com/".as_bytes())
        .as_u128();
    match s.get(key) {
        GetOutcome::Found(e) => {
            assert_eq!(e.url, "http://example.com/");
            assert_eq!(e.title, "t");
        },
        _ => panic!("entry should be stored under the UUID of its URL"),
    }
}

#[test]
fn recrawling_a_url_overwrites() {
    let mut s: MemStore<IntVector> = MemStore::new();
    put_entry(&mut s, entry("http://example.com/", "first", vec![1]));
    put_entry(&mut s, entry("http://example.com/", "second", vec![2]));
    let snap = s.snapshot();
    assert_eq!(snap.len(), 1);
    assert_eq!(snap[0].1.title, "second");
}

#[test]
fn get_distinguishes_missing_and_corrupt() {
    let mut s: MemStore<IntVector> = MemStore::new();
    s.put_corrupt(7);
    assert!(matches!(s.get(7), GetOutcome::Corrupt));
    assert!(matches!(s.get(8), GetOutcome::Missing));
}

#[test]
fn rebuild_skips_unreadable_records() {
    let mut s: MemStore<IntVector> = MemStore::new();
    put_entry(&mut s, entry("http://a.example/", "a", vec![1, 0]));
    put_entry(&mut s, entry("http://b.example/", "b", vec![0, 1]));
    s.put_corrupt(42);
    let ix = rebuild_index(&s, 2).expect("corrupt records are skipped, not fatal");
    assert_eq!(ix.len(), 2);
    assert_eq!(ix.dimension(), 2);
}

#[test]
fn rebuild_rejects_a_mismatched_dimension() {
    let mut s: MemStore<IntVector> = MemStore::new();
    put_entry(&mut s, entry("http://a.example/", "a", vec![1, 2, 3]));
    assert!(matches!(rebuild_index(&s, 2), Err(IndexError::DimensionMismatch)));
}

#[test]
fn build_rejects_a_mismatched_dimension() {
    let items = vec![(1u128, IntVector::from_components(vec![1, 2, 3]))];
    assert!(matches!(
        VecIndex::build(2, items),
        Err(IndexError::DimensionMismatch)
    ));
}

#[test]
fn language_defaults_to_unk() {
    assert_eq!(language_or_unk(None), "unk");
    assert_eq!(language_or_unk(Some(String::from("en"))), "en");
}

#[test]
fn make_entry_detects_the_title_language() {
    let detector = lingua::LanguageDetectorBuilder::from_languages(&[
        lingua::Language::English,
        lingua::Language::Spanish,
    ])
    .build();
    let e = tree::entry::make_entry(
        &detector,
        String::from("http://a.example/"),
        String::from("the quick brown fox jumps over the lazy dog"),
        String::from("h"),
        String::from("d"),
        IntVector::from_components(vec![1]),
    );
    assert_eq!(e.url, "http://a.example/");
    assert_eq!(e.title, "the quick brown fox jumps over the lazy dog");
    assert_eq!(e.language, "en");
}
