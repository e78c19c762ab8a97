use tree::enrich::{choose_resource, choose_summary, display_summary, fallback_resource,
    underscore_spaces, Binding, EnrichError, StubEnricher};

#[test]
fn fallback_resource_title_cases_and_joins() {
    assert_eq!(
        fallback_resource("hello world"),
        "http://dbpedia.org/resource/Hello_World"
    );
}

#[test]
fn underscore_spaces_replaces_every_space() {
    assert_eq!(underscore_spaces("a b c"), "a_b_c");
    assert_eq!(underscore_spaces("none"), "none");
    assert_eq!(underscore_spaces(""), "");
}

#[test]
fn choose_resource_prefers_the_bound_string() {
    let r = choose_resource(Binding::Text(String::from("http://kb/r/Thing")), "thing");
    assert_eq!(r.unwrap(), "http://kb/r/Thing");
}

#[test]
fn choose_resource_falls_back_without_a_binding() {
    let r = choose_resource(Binding::Missing, "two words");
    assert_eq!(r.unwrap(), "http://dbpedia.org/resource/Two_Words");
}

#[test]
fn choose_resource_rejects_a_non_string_binding() {
    let r = choose_resource(Binding::Other, "thing");
    assert!(matches!(r, Err(EnrichError::NoResource)));
}

#[test]
fn choose_summary_needs_a_bound_string() {
    assert_eq!(
        choose_summary(Binding::Text(String::from("a summary"))).unwrap(),
        "a summary"
    );
    assert!(matches!(choose_summary(Binding::Missing), Err(EnrichError::NoSummary)));
    assert!(matches!(choose_summary(Binding::Other), Err(EnrichError::NoSummary)));
}

#[test]
fn display_summary_degrades_to_empty() {
    let c = StubEnricher::new();
    assert_eq!(display_summary(&c, "anything"), "");
}

#[test]
fn display_summary_resolves_then_summarizes() {
    let mut c = StubEnricher::new();
    c.add_resolution(String::from("rust"), String::from("res"));
    c.add_summary(String::from("res"), String::from("a language"));
    assert_eq!(display_summary(&c, "rust"), "a language");
    // a resolution without a summary still degrades
    c.add_resolution(String::from("moss"), String::from("bare"));
    assert_eq!(display_summary(&c, "moss"), "");
}
