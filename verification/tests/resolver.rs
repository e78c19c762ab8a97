use tree::enrich::StubEnricher;
use tree::entry::CrawledEntry;
use tree::index::{rebuild_index, VecIndex};
use tree::query::{answer_query, get_url_list, results_query, Error, QueryError};
use tree::store::{put_entry, EntryStore, MemStore};
use tree::table::MemTable;
use tree::vector::IntVector;

fn entry(url: &str, lang: &str, comps: Vec<u64>) -> CrawledEntry<IntVector> {
    CrawledEntry {
        url: String::from(url),
        title: String::from(url),
        header: String::new(),
        description: String::new(),
        vector: IntVector::from_components(comps),
        language: String::from(lang),
    }
}

fn setup(n: u64) -> (MemTable, StubEnricher, VecIndex<IntVector>, MemStore<IntVector>) {
    let mut table = MemTable::new(2);
    table.insert(String::from("q"), IntVector::from_components(vec![3, 4]));
    let client = StubEnricher::new();
    let mut store: MemStore<IntVector> = MemStore::new();
    for i in 1..=n {
        let url = format!("http://u{}.example/", i);
        put_entry(&mut store, entry(&url, "en", vec![i, 0]));
    }
    let index = rebuild_index(&store, 2).expect("all vectors fit");
    (table, client, index, store)
}

#[test]
fn pages_union_into_the_double_page(  ) {
    let (table, client, index, store) = setup(12);
    let p1 = get_url_list(&table, &client, &index, &store, "q", 1, 5, None).unwrap();
    let p2 = get_url_list(&table, &client, &index, &store, "q", 2, 5, None).unwrap();
    let both = get_url_list(&table, &client, &index, &store, "q", 1, 10, None).unwrap();
    assert_eq!(p1.len(), 5);
    assert_eq!(p2.len(), 5);
    assert_eq!(both.len(), 10);
    let mut joined: Vec<(String, u64)> = Vec::new();
    for u in p1.iter().chain(p2.iter()) {
        joined.push((u.url.clone(), u.score));
    }
    let flat: Vec<(String, u64)> = both.iter().map(|u| (u.url.clone(), u.score)).collect();
    assert_eq!(joined, flat);
    // the two pages are disjoint
    for a in &p1 {
        for b in &p2 {
            assert_ne!(a.url, b.url);
        }
    }
}

#[test]
fn results_rank_by_descending_score() {
    let (table, client, index, store) = setup(6);
    let page = get_url_list(&table, &client, &index, &store, "q", 1, 4, None).unwrap();
    assert_eq!(page.len(), 4);
    // entry i scores 3·i against the query, so u6 comes first with 18
    assert_eq!(page[0].url, "http://u6.example/");
    assert_eq!(page[0].score, 18);
    for w in page.windows(2) {
        assert!(w[0].score >= w[1].score);
    }
}

#[test]
fn unembeddable_query_gives_an_empty_page() {
    let (table, client, index, store) = setup(3);
    let page = get_url_list(&table, &client, &index, &store, "", 1, 5, None).unwrap();
    assert!(page.is_empty());
    let page = get_url_list(&table, &client, &index, &store, "zzz", 1, 5, None).unwrap();
    assert!(page.is_empty());
}

#[test]
fn language_filter_drops_without_backfill() {
    let mut table = MemTable::new(1);
    table.insert(String::from("q"), IntVector::from_components(vec![1]));
    let client = StubEnricher::new();
    let mut store: MemStore<IntVector> = MemStore::new();
    put_entry(&mut store, entry("http://en1.example/", "en", vec![9]));
    put_entry(&mut store, entry("http://es1.example/", "es", vec![8]));
    put_entry(&mut store, entry("http://en2.example/", "en", vec![7]));
    let index = rebuild_index(&store, 1).expect("build");
    let filter = String::from("es");
    let page = get_url_list(&table, &client, &index, &store, "q", 1, 3, Some(&filter)).unwrap();
    assert_eq!(page.len(), 1);
    assert_eq!(page[0].url, "http://es1.example/");
    assert_eq!(page[0].language, "es");
}

#[test]
fn a_corrupt_record_fails_the_query() {
    let mut table = MemTable::new(1);
    table.insert(String::from("q"), IntVector::from_components(vec![1]));
    let client = StubEnricher::new();
    let mut store: MemStore<IntVector> = MemStore::new();
    put_entry(&mut store, entry("http://ok.example/", "en", vec![1]));
    store.put_corrupt(77);
    let items = vec![
        (77u128, IntVector::from_components(vec![100])),
        (
            uuid::Uuid::new_v5(&uuid::Uuid::NAMESPACE_URL, "http://ok.example/".as_bytes())
                .as_u128(),
            IntVector::from_components(vec![1]),
        ),
    ];
    let index = VecIndex::build(1, items).expect("build");
    let r = get_url_list(&table, &client, &index, &store, "q", 1, 2, None);
    assert!(matches!(r, Err(QueryError::CorruptRecord)));
    let r = results_query(&table, &client, &index, &store, "q", 1, None);
    assert!(matches!(r, Err(Error::InternalServerError)));
}

#[test]
fn answer_carries_summary_and_echoes_the_query() {
    let (table, mut client, index, store) = setup(7);
    client.add_resolution(String::from("q"), String::from("res"));
    client.add_summary(String::from("res"), String::from("a short summary"));
    let a = answer_query(&table, &client, &index, &store, "q", 1, None).unwrap();
    assert_eq!(a.urls.len(), 5);
    assert_eq!(a.answer, "a short summary");
    assert_eq!(a.small_summary, a.answer);
    assert_eq!(a.corrected, "q");
}

#[test]
fn results_query_pages_at_size_five() {
    let (table, client, index, store) = setup(7);
    let r1 = results_query(&table, &client, &index, &store, "q", 1, None).unwrap();
    let r2 = results_query(&table, &client, &index, &store, "q", 2, None).unwrap();
    assert_eq!(r1.urls.len(), 5);
    assert_eq!(r2.urls.len(), 2);
}

#[test]
fn errors_surface_as_their_status_codes() {
    assert_eq!(Error::InternalServerError.status_code(), 500);
    assert_eq!(Error::ExpectationFailed.status_code(), 417);
    assert_eq!(Error::NotFound.status_code(), 404);
    assert_eq!(Error::NotModified.status_code(), 304);
    assert_eq!(Error::NotAcceptable.status_code(), 406);
    assert_eq!(Error::BadRequest.status_code(), 400);
    assert_eq!(Error::Reqwest.status_code(), 500);
    assert_eq!(Error::Json.status_code(), 500);
    assert_eq!(Error::Unknown.status_code(), 500);
}
