//! The query resolver.
//!
//! A query becomes a ranked result page: embed the query text with
//! enrichment; search the vector index for the first `page · page_size`
//! neighbors; slice the requested page out; look each key up in the entry
//! store, skipping keys no longer stored and entries a language filter
//! rejects — the page may come back short, nothing is backfilled; project
//! what is left. A record that cannot be read back fails the whole request
//! — unlike the bulk index rebuild, which skips it. A query with no
//! embedding answers with an empty list, not an error.
use vstd::prelude::*;
use vstd::math::min;
use crate::embed::{get_sentence_embedding, sentence_spec};
use crate::enrich::{display_summary, display_summary_spec, Enricher};
use crate::entry::{EntryModel, Url, UrlModel};
use crate::index::{page_window, VecIndex};
use crate::store::{EntryStore, GetOutcome};
use crate::table::{table_wf, WordTable};
use crate::vector::VectorArith;

verus! {

/// The closed error union the query and peer endpoints surface; the
/// boundary translates each variant into a transport status and nothing
/// else does.
#[derive(Debug)]
pub enum Error {
    /// A remote fetch failed.
    Reqwest,
    /// Serialization or deserialization failed.
    Json,
    InternalServerError,
    ExpectationFailed,
    NotAcceptable,
    NotModified,
    NotFound,
    BadRequest,
    Unknown,
}

impl Error {
    /// The HTTP status each variant surfaces as.
    pub open spec fn status_spec(&self) -> u16 {
        match self {
            Error::ExpectationFailed => 417,
            Error::NotFound => 404,
            Error::NotModified => 304,
            Error::NotAcceptable => 406,
            Error::BadRequest => 400,
            _ => 500,
        }
    }

    /// The HTTP status this error surfaces as at the boundary.
    pub fn status_code(&self) -> (r: u16)
        ensures
            r == self.status_spec(),
    {
        match self {
            Error::ExpectationFailed => 417,
            Error::NotFound => 404,
            Error::NotModified => 304,
            Error::NotAcceptable => 406,
            Error::BadRequest => 400,
            _ => 500,
        }
    }
}

/// Errors of the query resolver.
#[derive(Debug)]
pub enum QueryError {
    /// A stored record in the requested page cannot be read back.
    CorruptRecord,
}

/// The models of projected results.
pub open spec fn urls_model(v: Seq<Url>) -> Seq<UrlModel> {
    v.map_values(|u: Url| u@)
}

/// The model of a resolver outcome.
pub open spec fn result_model(r: Result<Vec<Url>, QueryError>) -> Result<Seq<UrlModel>, QueryError> {
    match r {
        Ok(v) => Ok(urls_model(v@)),
        Err(e) => Err(e),
    }
}

/// An entry projected to a result record with its score.
pub open spec fn project_spec<M>(e: EntryModel<M>, score: u64) -> UrlModel {
    UrlModel {
        url: e.url,
        title: e.title,
        header: e.header,
        description: e.description,
        language: e.language,
        score,
    }
}

/// The first `n` ranked keys assembled into result records: a key no
/// longer stored is skipped; a record that cannot be read back fails the
/// request; an entry whose language the filter rejects is skipped.
pub open spec fn assemble_spec<M>(
    m: Map<u128, Option<EntryModel<M>>>,
    window: Seq<(u128, u64)>,
    lang: Option<Seq<char>>,
    n: int,
) -> Result<Seq<UrlModel>, QueryError>
    decreases n,
{
    if n <= 0 {
        Ok(Seq::<UrlModel>::empty())
    } else {
        match assemble_spec(m, window, lang, n - 1) {
            Err(e) => Err(e),
            Ok(pre) => {
                let k = window[n - 1].0;
                let score = window[n - 1].1;
                if !m.contains_key(k) {
                    Ok(pre)
                } else {
                    match m[k] {
                        None => Err(QueryError::CorruptRecord),
                        Some(e) => {
                            if lang matches Some(l) && e.language != l {
                                Ok(pre)
                            } else {
                                Ok(pre.push(project_spec(e, score)))
                            }
                        },
                    }
                }
            },
        }
    }
}

/// The requested page's slice of the ranking, after the fetch-then-slice
/// rule: the first `page · size` ranked entries with the first
/// `(page − 1) · size` dropped.
pub open spec fn window_of<V: VectorArith>(
    ix: VecIndex<V>,
    qv: V::M,
    page: nat,
    size: nat,
) -> Seq<(u128, u64)> {
    let fetched = ix.ranking(qv).take(min((page * size) as int, ix.entries().len() as int));
    fetched.skip(min(((page - 1) * size) as int, fetched.len() as int))
}

/// What resolving a query returns: nothing for a query with no embedding;
/// otherwise the requested page of the ranking, assembled from the store.
pub open spec fn get_url_list_spec<V: VectorArith, T: WordTable<V>, C: Enricher>(
    t: T,
    c: C,
    ix: VecIndex<V>,
    m: Map<u128, Option<EntryModel<V::M>>>,
    q: Seq<char>,
    page: nat,
    size: nat,
    lang: Option<Seq<char>>,
) -> Result<Seq<UrlModel>, QueryError> {
    match sentence_spec::<V, T, C>(t, c, q) {
        None => Ok(Seq::<UrlModel>::empty()),
        Some(qv) => {
            let window = window_of(ix, qv, page, size);
            assemble_spec(m, window, lang, window.len() as int)
        },
    }
}

/// The model of an optional language filter.
pub open spec fn lang_model(lo: Option<&String>) -> Option<Seq<char>> {
    match lo {
        Some(s) => Some(s@),
        None => None,
    }
}

/// Resolve a query to one ranked result page.
pub fn get_url_list<V: VectorArith, T: WordTable<V>, C: Enricher, S: EntryStore<V>>(
    table: &T,
    client: &C,
    index: &VecIndex<V>,
    store: &S,
    query: &str,
    page: usize,
    page_size: usize,
    language_option: Option<&String>,
) -> (r: Result<Vec<Url>, QueryError>)
    requires
        table_wf::<V, T>(*table),
        index.wf(),
        table.dim_of() == index.dim_of(),
        page >= 1,
        page * page_size <= usize::MAX,
    ensures
        result_model(r) == get_url_list_spec::<V, T, C>(
            *table,
            *client,
            *index,
            store.model(),
            query@,
            page as nat,
            page_size as nat,
            lang_model(language_option),
        ),
{
    let ghost langv = lang_model(language_option);
    let owned_lang: Option<String> = match language_option {
        Some(l) => Some(l.clone()),
        None => None,
    };
    let embedded: Option<V> = get_sentence_embedding(table, client, query);
    match embedded {
        None => {
            let r: Vec<Url> = Vec::new();
            proof {
                assert(urls_model(r@) =~= Seq::<UrlModel>::empty());
            }
            Ok(r)
        },
        Some(qv) => {
            proof {
                crate::embed::lemma_sentence_dim::<V, T, C>(*table, *client, query@);
            }
            let k = page * page_size;
            let fetched = index.search(&qv, k);
            let w = page_window(fetched, page, page_size);
            let ghost wv = w@;
            let ghost m = store.model();
            let mut out: Vec<Url> = Vec::new();
            proof {
                assert(urls_model(out@) =~= Seq::<UrlModel>::empty());
            }
            let mut i: usize = 0;
            while i < w.len()
                invariant
                    i <= w@.len(),
                    w@ == wv,
                    store.model() == m,
                    assemble_spec(m, wv, langv, i as int) == Ok::<Seq<UrlModel>, QueryError>(
                        urls_model(out@),
                    ),
                decreases w@.len() - i,
            {
                let ghost pre = urls_model(out@);
                let key = w[i].0;
                let score = w[i].1;
                match store.get(key) {
                    GetOutcome::Missing => {},
                    GetOutcome::Corrupt => {
                        proof {
                            lemma_assemble_err_persists(m, wv, langv, i as int + 1, wv.len() as int);
                        }
                        return Err(QueryError::CorruptRecord);
                    },
                    GetOutcome::Found(e) => {
                        let keep = match &owned_lang {
                            Some(l) => crate::assoc::string_eq(&e.language, l),
                            None => true,
                        };
                        proof {
                            assert(owned_lang matches Some(cl) ==> (langv matches Some(lv)
                                && cl@ == lv));
                        }
                        if keep {
                            out.push(
                                Url {
                                    url: e.url,
                                    title: e.title,
                                    header: e.header,
                                    description: e.description,
                                    language: e.language,
                                    score,
                                },
                            );
                            proof {
                                assert(urls_model(out@) =~= pre.push(
                                    project_spec(m[key].unwrap(), score),
                                ));
                            }
                        }
                    },
                }
                i = i + 1;
                proof {
                    assert(assemble_spec(m, wv, langv, i as int) == Ok::<
                        Seq<UrlModel>,
                        QueryError,
                    >(urls_model(out@)));
                }
            }
            proof {
                assert(wv.len() as int == w@.len() as int);
            }
            Ok(out)
        },
    }
}

/// Once assembly fails, processing more keys keeps the same failure.
pub proof fn lemma_assemble_err_persists<M>(
    m: Map<u128, Option<EntryModel<M>>>,
    window: Seq<(u128, u64)>,
    lang: Option<Seq<char>>,
    n1: int,
    n2: int,
)
    requires
        0 <= n1 <= n2,
        assemble_spec(m, window, lang, n1) is Err,
    ensures
        assemble_spec(m, window, lang, n2) == assemble_spec(m, window, lang, n1),
    decreases n2 - n1,
{
    if n1 < n2 {
        lemma_assemble_err_persists(m, window, lang, n1, n2 - 1);
    }
}

/// Assembly reads only the first `n` keys of the window.
pub proof fn lemma_assemble_prefix<M>(
    m: Map<u128, Option<EntryModel<M>>>,
    w1: Seq<(u128, u64)>,
    w2: Seq<(u128, u64)>,
    lang: Option<Seq<char>>,
    n: int,
)
    requires
        n <= w1.len(),
        n <= w2.len(),
        forall|i: int| 0 <= i < n ==> w1[i] == w2[i],
    ensures
        assemble_spec(m, w1, lang, n) == assemble_spec(m, w2, lang, n),
    decreases n,
{
    if n > 0 {
        lemma_assemble_prefix(m, w1, w2, lang, n - 1);
    }
}

/// Assembling two windows one after the other assembles their
/// concatenation: the records concatenate, and a failure in either half
/// is the concatenation's failure.
pub proof fn lemma_assemble_split<M>(
    m: Map<u128, Option<EntryModel<M>>>,
    w1: Seq<(u128, u64)>,
    w2: Seq<(u128, u64)>,
    lang: Option<Seq<char>>,
    j: int,
)
    requires
        0 <= j <= w2.len(),
        assemble_spec(m, w1, lang, w1.len() as int) is Ok,
    ensures
        assemble_spec(m, w2, lang, j) matches Ok(b) ==> assemble_spec(
            m,
            w1 + w2,
            lang,
            w1.len() + j,
        ) == Ok::<Seq<UrlModel>, QueryError>(
            assemble_spec(m, w1, lang, w1.len() as int)->Ok_0 + b,
        ),
        assemble_spec(m, w2, lang, j) matches Err(e) ==> assemble_spec(
            m,
            w1 + w2,
            lang,
            w1.len() + j,
        ) == Err::<Seq<UrlModel>, QueryError>(e),
    decreases j,
{
    let a = assemble_spec(m, w1, lang, w1.len() as int)->Ok_0;
    if j == 0 {
        lemma_assemble_prefix(m, w1, w1 + w2, lang, w1.len() as int);
        assert(a + Seq::<UrlModel>::empty() =~= a);
    } else {
        lemma_assemble_split(m, w1, w2, lang, j - 1);
        assert((w1 + w2)[w1.len() + j - 1] == w2[j - 1]);
        match assemble_spec(m, w2, lang, j - 1) {
            Err(e) => {},
            Ok(bpre) => {
                let k = w2[j - 1].0;
                let score = w2[j - 1].1;
                if m.contains_key(k) && m[k] is Some && !(lang matches Some(l)
                    && m[k].unwrap().language != l) {
                    assert(a + bpre.push(project_spec(m[k].unwrap(), score)) =~= (a + bpre).push(
                        project_spec(m[k].unwrap(), score),
                    ));
                }
            },
        }
    }
}

/// Pagination law: with no language filter, page one and page two at size
/// `s`, in order, are exactly page one at size `2·s`.
pub proof fn lemma_pagination_union<V: VectorArith, T: WordTable<V>, C: Enricher>(
    t: T,
    c: C,
    ix: VecIndex<V>,
    m: Map<u128, Option<EntryModel<V::M>>>,
    q: Seq<char>,
    s: nat,
)
    requires
        get_url_list_spec::<V, T, C>(t, c, ix, m, q, 1, s, None) is Ok,
        get_url_list_spec::<V, T, C>(t, c, ix, m, q, 2, s, None) is Ok,
    ensures
        get_url_list_spec::<V, T, C>(t, c, ix, m, q, 1, (2 * s) as nat, None) == Ok::<
            Seq<UrlModel>,
            QueryError,
        >(
            get_url_list_spec::<V, T, C>(t, c, ix, m, q, 1, s, None)->Ok_0 + get_url_list_spec::<
                V,
                T,
                C,
            >(t, c, ix, m, q, 2, s, None)->Ok_0,
        ),
{
    match sentence_spec::<V, T, C>(t, c, q) {
        None => {
            assert(Seq::<UrlModel>::empty() + Seq::<UrlModel>::empty() =~= Seq::<
                UrlModel,
            >::empty());
        },
        Some(qv) => {
            broadcast use vstd::seq_lib::group_to_multiset_ensures;

            crate::index::lemma_rank_order_total();
            ix.scored(qv).lemma_sort_by_ensures(crate::index::rank_order());
            let rk = ix.ranking(qv);
            let n = ix.entries().len() as int;
            assert(rk.len() == rk.to_multiset().len());
            assert(ix.scored(qv).len() == ix.scored(qv).to_multiset().len());
            assert(rk.len() == n);
            let w1 = window_of(ix, qv, 1, s);
            let w2 = window_of(ix, qv, 2, s);
            let wc = window_of(ix, qv, 1, (2 * s) as nat);
            assert(w1 =~= rk.take(min(s as int, n)));
            assert(wc =~= rk.take(min(2 * s as int, n)));
            if n <= s as int {
                assert(w2 =~= Seq::<(u128, u64)>::empty());
                assert(wc =~= w1 + w2);
            } else {
                let f2 = rk.take(min(2 * s as int, n));
                assert(w2 =~= f2.skip(s as int));
                assert forall|t: int| 0 <= t < wc.len() implies wc[t] == (w1 + w2)[t] by {
                    if t < s as int {
                        assert(w1[t] == rk[t]);
                    } else {
                        assert(w2[t - s as int] == f2[t]);
                    }
                }
                assert(wc =~= w1 + w2);
            }
            lemma_assemble_prefix(m, w1, wc, lang_none(), w1.len() as int);
            lemma_assemble_split(m, w1, w2, lang_none(), w2.len() as int);
        },
    }
}

/// The absent language filter, spelled out once.
pub open spec fn lang_none() -> Option<Seq<char>> {
    None
}

/// Pagination law, second half: with pairwise-distinct index keys, the
/// page-one and page-two windows of one query share no key.
pub proof fn lemma_pages_share_no_key<V: VectorArith>(ix: VecIndex<V>, qv: V::M, s: nat)
    requires
        crate::assoc::keys_unique(ix.entries()),
    ensures
        forall|i: int, j: int|
            0 <= i < window_of(ix, qv, 1, s).len() && 0 <= j < window_of(ix, qv, 2, s).len()
                ==> (#[trigger] window_of(ix, qv, 1, s)[i]).0 != (#[trigger] window_of(
                ix,
                qv,
                2,
                s,
            )[j]).0,
{
    broadcast use vstd::seq_lib::group_to_multiset_ensures;

    crate::index::lemma_ranking_keys_unique(ix, qv);
    crate::index::lemma_rank_order_total();
    ix.scored(qv).lemma_sort_by_ensures(crate::index::rank_order());
    let rk = ix.ranking(qv);
    let n = ix.entries().len() as int;
    assert(rk.len() == rk.to_multiset().len());
    assert(ix.scored(qv).len() == ix.scored(qv).to_multiset().len());
    assert(rk.len() == n);
    let w1 = window_of(ix, qv, 1, s);
    let w2 = window_of(ix, qv, 2, s);
    assert forall|i: int, j: int| 0 <= i < w1.len() && 0 <= j < w2.len() implies (
    #[trigger] w1[i]).0 != (#[trigger] w2[j]).0 by {
        let f1 = rk.take(min(s as int, n));
        let f2 = rk.take(min(2 * s as int, n));
        assert(w1[i] == f1[i]);
        assert(w1[i] == rk[i]);
        assert(w2[j] == f2[min(s as int, f2.len() as int) + j]);
        assert(f2.len() > s as int);
        assert(w2[j] == rk[s + j]);
        assert(i < s as int);
    }
}

/// The ranked answer page together with a display summary for the raw
/// query and the echoed query text.
pub struct Answer {
    pub answer: String,
    pub urls: Vec<Url>,
    pub small_summary: String,
    pub corrected: String,
}

/// The ranked answer page alone.
pub struct Results {
    pub urls: Vec<Url>,
}

/// The answer endpoint's page size.
pub open spec fn answer_page_size() -> nat {
    5
}

/// Answer a query: the requested page at size five, a display summary for
/// the raw query — its failure degrades to an empty string — and the
/// echoed query. A resolver failure surfaces as an internal server error.
pub fn answer_query<V: VectorArith, T: WordTable<V>, C: Enricher, S: EntryStore<V>>(
    table: &T,
    client: &C,
    index: &VecIndex<V>,
    store: &S,
    query: &str,
    page: usize,
    language_option: Option<&String>,
) -> (r: Result<Answer, Error>)
    requires
        table_wf::<V, T>(*table),
        index.wf(),
        table.dim_of() == index.dim_of(),
        page >= 1,
        page * 5 <= usize::MAX,
    ensures
        get_url_list_spec::<V, T, C>(
            *table,
            *client,
            *index,
            store.model(),
            query@,
            page as nat,
            answer_page_size(),
            lang_model(language_option),
        ) matches Ok(us) ==> (r matches Ok(a) && urls_model(a.urls@) == us && a.answer@
            == display_summary_spec(*client, query@) && a.small_summary@ == a.answer@
            && a.corrected@ == query@),
        get_url_list_spec::<V, T, C>(
            *table,
            *client,
            *index,
            store.model(),
            query@,
            page as nat,
            answer_page_size(),
            lang_model(language_option),
        ) is Err ==> (r matches Err(e) && e is InternalServerError),
{
    let urls = match get_url_list(table, client, index, store, query, page, 5, language_option) {
        Ok(urls) => urls,
        Err(_) => {
            return Err(Error::InternalServerError);
        },
    };
    let answer_text = display_summary(client, query);
    let small_summary = answer_text.clone();
    let corrected = query.to_owned();
    Ok(Answer { answer: answer_text, urls, small_summary, corrected })
}

/// Answer a query with the result page alone, at size five.
pub fn results_query<V: VectorArith, T: WordTable<V>, C: Enricher, S: EntryStore<V>>(
    table: &T,
    client: &C,
    index: &VecIndex<V>,
    store: &S,
    query: &str,
    page: usize,
    language_option: Option<&String>,
) -> (r: Result<Results, Error>)
    requires
        table_wf::<V, T>(*table),
        index.wf(),
        table.dim_of() == index.dim_of(),
        page >= 1,
        page * 5 <= usize::MAX,
    ensures
        get_url_list_spec::<V, T, C>(
            *table,
            *client,
            *index,
            store.model(),
            query@,
            page as nat,
            answer_page_size(),
            lang_model(language_option),
        ) matches Ok(us) ==> (r matches Ok(a) && urls_model(a.urls@) == us),
        get_url_list_spec::<V, T, C>(
            *table,
            *client,
            *index,
            store.model(),
            query@,
            page as nat,
            answer_page_size(),
            lang_model(language_option),
        ) is Err ==> (r matches Err(e) && e is InternalServerError),
{
    match get_url_list(table, client, index, store, query, page, 5, language_option) {
        Ok(urls) => Ok(Results { urls }),
        Err(_) => Err(Error::InternalServerError),
    }
}

} // verus!
