//! Knowledge enrichment.
//!
//! An `Enricher` is a best-effort, read-only semantic lookup: it resolves a
//! term to a canonical resource identifier and fetches a short summary of a
//! resource. Both calls degrade to absence, never to a hard error. The
//! resolution rule — exact label match, else one redirect edge, else a
//! constructed identifier from the title-cased, underscore-joined term — is
//! decided here by `choose_resource` over the outcome of the remote label
//! query, which a host process performs.
use vstd::prelude::*;
use vstd::pervasive::arbitrary;
use crate::assoc::{assoc_get, map_of, str_pairs};
use crate::table::opt_model;

verus! {

/// What `titlecase::titlecase` returns: English title casing, a function of
/// the input characters alone.
pub uninterp spec fn titlecase_of(s: Seq<char>) -> Seq<char>;

/// Relies on `titlecase::titlecase`: deterministic English title casing of
/// the input.
#[verifier::external_body]
pub(crate) fn titlecase_term(s: &str) -> (r: String)
    ensures
        r@ == titlecase_of(s@),
{
    String::from(titlecase::titlecase(s))
}

/// A space turns into an underscore; all else stays.
pub open spec fn underscore_char(c: char) -> char {
    if c == ' ' {
        '_'
    } else {
        c
    }
}

/// The sequence with every space replaced by an underscore.
pub open spec fn underscored(s: Seq<char>) -> Seq<char> {
    Seq::new(s.len(), |i: int| underscore_char(s[i]))
}

/// Replace every space with an underscore.
pub fn underscore_spaces(s: &str) -> (r: String)
    ensures
        r@ == underscored(s@),
{
    let n = s.unicode_len();
    let mut out = String::new();
    let mut i: usize = 0;
    while i < n
        invariant
            i <= n,
            out@.len() == i as nat,
            forall|j: int| 0 <= j < i ==> out@[j] == underscore_char(s@[j]),
        decreases n - i,
    {
        let c = s.get_char(i);
        if c == ' ' {
            proof {
                reveal_strlit("_");
            }
            out.append("_");
        } else {
            let piece = s.substring_char(i, i + 1);
            out.append(piece);
        }
        i = i + 1;
    }
    proof {
        assert(out@ =~= underscored(s@));
    }
    out
}

/// The constructed fallback identifier for a term nothing resolved: the
/// title-cased, underscore-joined term under the knowledge base's resource
/// namespace.
pub open spec fn fallback_resource_spec(term: Seq<char>) -> Seq<char> {
    "http://dbpedia.org/resource/"@ + underscored(titlecase_of(term))
}

/// Build the constructed fallback identifier for a term.
pub fn fallback_resource(term: &str) -> (r: String)
    ensures
        r@ == fallback_resource_spec(term@),
{
    let t = titlecase_term(term);
    let u = underscore_spaces(t.as_str());
    let mut r = String::from_str("http://dbpedia.org/resource/");
    r.append(u.as_str());
    r
}

/// What one binding of a remote label query came back as.
pub enum Binding {
    /// The query had no binding for the variable.
    Missing,
    /// The binding was a plain string.
    Text(String),
    /// The binding was something other than a string.
    Other,
}

/// Errors of the enrichment component.
#[derive(Debug)]
pub enum EnrichError {
    /// A redirect binding existed but held no usable identifier.
    NoResource,
    /// The resource has no summary text.
    NoSummary,
}

/// Decide the resource for a term from the label query's outcome: a bound
/// string is the resource; no binding falls back to the constructed
/// identifier; a non-string binding is an error.
pub fn choose_resource(binding: Binding, term: &str) -> (r: Result<String, EnrichError>)
    ensures
        binding is Missing ==> (r matches Ok(u) && u@ == fallback_resource_spec(term@)),
        binding matches Binding::Text(s) ==> (r matches Ok(u) && u == s),
        binding is Other ==> (r matches Err(e) && e is NoResource),
{
    match binding {
        Binding::Missing => Ok(fallback_resource(term)),
        Binding::Text(s) => Ok(s),
        Binding::Other => Err(EnrichError::NoResource),
    }
}

/// Decide a resource's summary from the summary query's outcome: only a
/// bound string is a summary.
pub fn choose_summary(binding: Binding) -> (r: Result<String, EnrichError>)
    ensures
        binding matches Binding::Text(s) ==> (r matches Ok(u) && u == s),
        !(binding is Text) ==> (r matches Err(e) && e is NoSummary),
{
    match binding {
        Binding::Text(s) => Ok(s),
        _ => Err(EnrichError::NoSummary),
    }
}

/// A read-only semantic lookup. Both calls are idempotent reads pinned to
/// the client's model, so one client gives one answer per input; a host
/// process implements this over its knowledge base, and `StubEnricher` is
/// the library's own deterministic table-backed client.
pub trait Enricher: Sized {
    /// What the client resolves each term to. The ghost members carry
    /// defaults so that a host process can implement the trait without
    /// writing ghost code; a verified implementation overrides them.
    open spec fn resolve_model(&self, term: Seq<char>) -> Option<Seq<char>> {
        arbitrary()
    }

    /// The summary the client holds for each resource.
    open spec fn summary_model(&self, resource: Seq<char>) -> Option<Seq<char>> {
        arbitrary()
    }

    /// Resolve a term to a resource identifier; absence on failure.
    fn resolve(&self, term: &str) -> (r: Option<String>)
        ensures
            opt_model(r) == self.resolve_model(term@),
    ;

    /// Fetch one natural-language summary; absence on failure.
    fn summarize(&self, resource: &str) -> (r: Option<String>)
        ensures
            opt_model(r) == self.summary_model(resource@),
    ;
}

/// The free-text summary shown beside query results: resolve the raw query,
/// then summarize; each failure degrades to the empty string.
pub open spec fn display_summary_spec<C: Enricher>(c: C, q: Seq<char>) -> Seq<char> {
    let res = match c.resolve_model(q) {
        Some(r) => r,
        None => Seq::<char>::empty(),
    };
    match c.summary_model(res) {
        Some(s) => s,
        None => Seq::<char>::empty(),
    }
}

/// Produce the display summary for a raw query; never fails.
pub fn display_summary<C: Enricher>(client: &C, query: &str) -> (r: String)
    ensures
        r@ == display_summary_spec(*client, query@),
{
    let resource = match client.resolve(query) {
        Some(r) => r,
        None => String::new(),
    };
    match client.summarize(resource.as_str()) {
        Some(s) => s,
        None => String::new(),
    }
}

/// A deterministic, table-backed enrichment client: canned resolutions and
/// summaries, read last-entry-wins.
pub struct StubEnricher {
    resolutions: Vec<(String, String)>,
    summaries: Vec<(String, String)>,
}

impl StubEnricher {
    /// A client that resolves nothing.
    pub fn new() -> (r: StubEnricher)
        ensures
            forall|t: Seq<char>| r.resolve_model(t) is None,
            forall|t: Seq<char>| r.summary_model(t) is None,
    {
        let r = StubEnricher { resolutions: Vec::new(), summaries: Vec::new() };
        proof {
            assert(str_pairs(r.resolutions@) =~= Seq::<(Seq<char>, Seq<char>)>::empty());
            assert(str_pairs(r.summaries@) =~= Seq::<(Seq<char>, Seq<char>)>::empty());
            assert forall|t: Seq<char>| r.resolve_model(t) is None by {
                assert(!map_of(str_pairs(r.resolutions@)).contains_key(t));
            }
            assert forall|t: Seq<char>| r.summary_model(t) is None by {
                assert(!map_of(str_pairs(r.summaries@)).contains_key(t));
            }
        }
        r
    }

    /// Add or overwrite one canned resolution.
    pub fn add_resolution(&mut self, term: String, resource: String)
        ensures
            forall|t: Seq<char>|
                final(self).resolve_model(t) == if t == term@ {
                    Some(resource@)
                } else {
                    old(self).resolve_model(t)
                },
            forall|t: Seq<char>| final(self).summary_model(t) == old(self).summary_model(t),
    {
        let ghost pre = str_pairs(self.resolutions@);
        proof {
            crate::assoc::lemma_map_of_push(pre, term@, resource@);
        }
        self.resolutions.push((term, resource));
        proof {
            assert(str_pairs(self.resolutions@) =~= pre.push((term@, resource@)));
        }
    }

    /// Add or overwrite one canned summary.
    pub fn add_summary(&mut self, resource: String, text: String)
        ensures
            forall|t: Seq<char>|
                final(self).summary_model(t) == if t == resource@ {
                    Some(text@)
                } else {
                    old(self).summary_model(t)
                },
            forall|t: Seq<char>| final(self).resolve_model(t) == old(self).resolve_model(t),
    {
        let ghost pre = str_pairs(self.summaries@);
        proof {
            crate::assoc::lemma_map_of_push(pre, resource@, text@);
        }
        self.summaries.push((resource, text));
        proof {
            assert(str_pairs(self.summaries@) =~= pre.push((resource@, text@)));
        }
    }
}

impl Enricher for StubEnricher {
    closed spec fn resolve_model(&self, term: Seq<char>) -> Option<Seq<char>> {
        if map_of(str_pairs(self.resolutions@)).contains_key(term) {
            Some(map_of(str_pairs(self.resolutions@))[term])
        } else {
            None
        }
    }

    closed spec fn summary_model(&self, resource: Seq<char>) -> Option<Seq<char>> {
        if map_of(str_pairs(self.summaries@)).contains_key(resource) {
            Some(map_of(str_pairs(self.summaries@))[resource])
        } else {
            None
        }
    }

    fn resolve(&self, term: &str) -> (r: Option<String>) {
        assoc_get(&self.resolutions, term)
    }

    fn summarize(&self, resource: &str) -> (r: Option<String>) {
        assoc_get(&self.summaries, resource)
    }
}

} // verus!
