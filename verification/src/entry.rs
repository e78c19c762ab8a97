//! Crawled entries and result records.
//!
//! One `CrawledEntry` holds what a successful scrape of one page produced:
//! its metadata, its embedding and its detected language. A `Url` is the
//! query-path projection of an entry together with its similarity score;
//! it is derived, never persisted.
use vstd::prelude::*;
use crate::vector::VectorArith;

verus! {

/// The model of a crawled entry: its fields as the spec sees them.
pub struct EntryModel<M> {
    pub url: Seq<char>,
    pub title: Seq<char>,
    pub header: Seq<char>,
    pub description: Seq<char>,
    pub vector: M,
    pub language: Seq<char>,
}

/// One record per crawled page: metadata (each field possibly empty), the
/// page's embedding, and an ISO 639-1 language code or `"unk"`.
pub struct CrawledEntry<V> {
    pub url: String,
    pub title: String,
    pub header: String,
    pub description: String,
    pub vector: V,
    pub language: String,
}

impl<V: VectorArith> View for CrawledEntry<V> {
    type V = EntryModel<V::M>;

    open spec fn view(&self) -> EntryModel<V::M> {
        EntryModel {
            url: self.url@,
            title: self.title@,
            header: self.header@,
            description: self.description@,
            vector: self.vector.model(),
            language: self.language@,
        }
    }
}

impl<V: VectorArith> CrawledEntry<V> {
    /// A fresh entry with the same model.
    pub fn duplicate(&self) -> (r: Self)
        ensures
            r@ == self@,
    {
        CrawledEntry {
            url: self.url.clone(),
            title: self.title.clone(),
            header: self.header.clone(),
            description: self.description.clone(),
            vector: self.vector.duplicate(),
            language: self.language.clone(),
        }
    }
}

/// The model of a result record.
pub struct UrlModel {
    pub url: Seq<char>,
    pub title: Seq<char>,
    pub header: Seq<char>,
    pub description: Seq<char>,
    pub language: Seq<char>,
    pub score: u64,
}

/// One ranked result: an entry's metadata with its similarity score.
pub struct Url {
    pub url: String,
    pub title: String,
    pub header: String,
    pub description: String,
    pub language: String,
    pub score: u64,
}

impl View for Url {
    type V = UrlModel;

    open spec fn view(&self) -> UrlModel {
        UrlModel {
            url: self.url@,
            title: self.title@,
            header: self.header@,
            description: self.description@,
            language: self.language@,
            score: self.score,
        }
    }
}

/// Relies on lingua's `LanguageDetector::detect_language_of` and
/// `Language::iso_code_639_1`: the most likely language's two-letter code,
/// or absence when no language can be detected reliably.
#[verifier::external_type_specification]
#[verifier::external_body]
pub struct ExLanguageDetector(lingua::LanguageDetector);

/// Relies on lingua's `LanguageDetector::detect_language_of` and
/// `Language::iso_code_639_1`; nothing is assumed of which language comes
/// back, and `language_or_unk` handles every outcome.
#[verifier::external_body]
pub(crate) fn detect_language(detector: &lingua::LanguageDetector, text: &str) -> (r: Option<
    String,
>) {
    detector.detect_language_of(text).map(|l| String::from(l.iso_code_639_1().to_string()))
}

/// The language an entry records for a detection outcome: the detected code
/// as it came, or `"unk"` when nothing was detected.
pub fn language_or_unk(detected: Option<String>) -> (r: String)
    ensures
        detected matches Some(code) ==> r == code,
        detected is None ==> r@ == "unk"@,
{
    match detected {
        Some(code) => code,
        None => String::from_str("unk"),
    }
}

/// Assemble the entry for a successfully scraped and embedded page: the
/// metadata and vector as given; the language detected from the title, or
/// `"unk"` when detection found nothing.
pub fn make_entry<V: VectorArith>(
    detector: &lingua::LanguageDetector,
    url: String,
    title: String,
    header: String,
    description: String,
    vector: V,
) -> (r: CrawledEntry<V>)
    ensures
        r@.url == url@,
        r@.title == title@,
        r@.header == header@,
        r@.description == description@,
        r@.vector == vector.model(),
{
    let detected = detect_language(detector, title.as_str());
    let language = language_or_unk(detected);
    CrawledEntry { url, title, header, description, vector, language }
}

} // verus!
