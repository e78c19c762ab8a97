use tree::frontier::{select_description, select_header, select_title, Frontier, PageState};

fn frontier(max_depth: usize, blocked: &[&str]) -> Frontier {
    Frontier::new(max_depth, blocked.iter().map(|s| String::from(*s)).collect())
}

/// Drive a crawl to completion: each fetched URL hands back the links the
/// given closure assigns to it; returns every fetched URL in fetch order.
fn drive(f: &mut Frontier, links_of: impl Fn(&str) -> Vec<String>) -> Vec<String> {
    let mut fetched = Vec::new();
    while let Some((url, _depth)) = f.next_to_fetch() {
        let links = links_of(&url);
        f.on_fetched(&url, &url, &links);
        fetched.push(url);
    }
    fetched
}

#[test]
fn a_url_reached_from_two_parents_is_fetched_once_with_both_referrers() {
    let mut f = frontier(4, &[]);
    let a = String::from("http://a.example/");
    f.visit(&a);
    let fetched = drive(&mut f, |url| match url {
        "http://a.example/" => vec![
            String::from("http://b.example/"),
            String::from("http://c.example/"),
        ],
        "http://b.example/" => vec![String::from("http://c.example/")],
        _ => vec![],
    });
    let c_count = fetched.iter().filter(|u| *u == "http://c.example/").count();
    assert_eq!(c_count, 1);
    let refs = f.referrers_of(&String::from("http://c.example/"));
    assert_eq!(refs, vec!["http://a.example/", "http://b.example/"]);
}

#[test]
fn end_to_end_bounded_crawl_visits_each_page_once() {
    let mut f = frontier(2, &[]);
    let a = String::from("http://a.example/");
    f.visit(&a);
    let mut fetched = drive(&mut f, |url| match url {
        "http://a.example/" => vec![
            String::from("http://b.example/"),
            String::from("http://c.example/"),
        ],
        "http://b.example/" => vec![String::from("http://c.example/")],
        _ => vec![],
    });
    fetched.sort();
    assert_eq!(
        fetched,
        vec![
            "http://a.example/",
            "http://b.example/",
            "http://c.example/",
        ]
    );
    let refs = f.referrers_of(&String::from("http://c.example/"));
    assert_eq!(refs, vec!["http://a.example/", "http://b.example/"]);
}

#[test]
fn a_page_beyond_the_depth_bound_is_never_fetched() {
    let mut f = frontier(1, &[]);
    let a = String::from("http://a.example/");
    f.visit(&a);
    let fetched = drive(&mut f, |url| match url {
        "http://a.example/" => vec![String::from("http://b.example/")],
        "http://b.example/" => vec![String::from("http://deep.example/")],
        _ => vec![],
    });
    assert_eq!(fetched.len(), 2);
    assert!(f.page_status(&String::from("http://deep.example/")).is_none());
    assert!(f
        .referrers_of(&String::from("http://deep.example/"))
        .is_empty());
}

#[test]
fn blocklisted_links_are_never_enqueued() {
    let mut f = frontier(4, &["facebook.com", "google.com"]);
    let a = String::from("http://a.example/");
    f.visit(&a);
    let fetched = drive(&mut f, |url| match url {
        "http://a.example/" => vec![
            String::from("https://facebook.com/page"),
            String::from("http://ok.example/"),
        ],
        _ => vec![],
    });
    assert_eq!(fetched.len(), 2);
    assert!(f
        .page_status(&String::from("https://facebook.com/page"))
        .is_none());
    assert!(f
        .referrers_of(&String::from("https://facebook.com/page"))
        .is_empty());
    assert!(f.page_status(&String::from("http://ok.example/")).is_some());
}

#[test]
fn relative_links_resolve_against_the_final_url() {
    let mut f = frontier(3, &[]);
    let a = String::from("http://x.example/dir/page");
    f.visit(&a);
    let (url, _d) = f.next_to_fetch().unwrap();
    f.on_fetched(&url, &url, &vec![String::from("../other")]);
    assert!(f
        .page_status(&String::from("http://x.example/other"))
        .is_some());
}

#[test]
fn a_failed_fetch_drops_the_page_and_its_links() {
    let mut f = frontier(3, &[]);
    let a = String::from("http://a.example/");
    f.visit(&a);
    let (url, _d) = f.next_to_fetch().unwrap();
    f.on_failed(&url);
    assert!(f.next_to_fetch().is_none());
    let st = f.page_status(&a).unwrap();
    assert!(matches!(st.0, PageState::Failed));
}

#[test]
fn revisiting_a_seed_changes_nothing() {
    let mut f = frontier(3, &[]);
    let a = String::from("http://a.example/");
    f.visit(&a);
    f.visit(&a);
    assert!(f.next_to_fetch().is_some());
    assert!(f.next_to_fetch().is_none());
}

#[test]
fn metadata_prefers_meta_content_and_trims() {
    assert_eq!(
        select_title(Some(Some(String::from("  Site  "))), Some(String::from("T"))),
        "Site"
    );
    assert_eq!(select_title(None, Some(String::from("  T "))), "T");
    assert_eq!(select_title(Some(None), Some(String::from("T"))), "");
    assert_eq!(select_title(None, None), "");
    assert_eq!(
        select_header(Some(Some(String::from(" H "))), None),
        "H"
    );
    assert_eq!(select_header(None, Some(String::from("h1 text"))), "h1 text");
    assert_eq!(
        select_description(Some(Some(String::from(" about ")))),
        "about"
    );
    assert_eq!(select_description(None), "");
}

#[test]
fn an_unparsable_link_is_skipped() {
    let mut f = frontier(3, &[]);
    let a = String::from("http://a.example/");
    f.visit(&a);
    let (url, _d) = f.next_to_fetch().unwrap();
    f.on_fetched(&url, &url, &vec![String::from("http://[half"), String::from("http://ok.example/")]);
    assert!(f.page_status(&String::from("http://ok.example/")).is_some());
    assert!(f.next_to_fetch().is_some());
    assert!(f.next_to_fetch().is_none());
}
