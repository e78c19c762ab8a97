//! The embedding pipeline.
//!
//! A text maps to one dense vector: tokenize on whitespace, sum the vectors
//! of the tokens the table resolves, and divide by the count of all tokens
//! — resolved or not, a deliberate damping of sparse matches. A text whose
//! sum is exactly the zero vector has no embedding; absence is never an
//! error. `get_sentence_embedding` additionally tries one level of
//! enrichment for each unresolved token and folds in the embedding of the
//! summary it found; any failure on that path contributes nothing.
use vstd::prelude::*;
use crate::vector::{opt_vec_model, VectorArith};
use crate::table::{get_word_embedding, table_wf, word_vector_spec, WordTable};
use crate::enrich::Enricher;

verus! {

/// What `str::split_whitespace` returns: the whitespace-separated tokens,
/// a function of the characters alone.
pub uninterp spec fn ws_tokens_of(s: Seq<char>) -> Seq<Seq<char>>;

/// Relies on `str::split_whitespace`: the tokens of a string depend on its
/// characters alone, and a string of length zero has none.
#[verifier::external_body]
pub(crate) fn split_tokens(s: &str) -> (r: Vec<String>)
    ensures
        r@.map_values(|t: String| t@) == ws_tokens_of(s@),
        s@.len() == 0 ==> r@.len() == 0,
{
    s.split_whitespace().map(|w| String::from(w)).collect()
}

/// The sum of the resolvable tokens' vectors over `acc`: each token the
/// table resolves (case-insensitively) adds its vector; the rest add
/// nothing.
pub open spec fn sum_tokens<V: VectorArith, T: WordTable<V>>(
    t: T,
    toks: Seq<Seq<char>>,
    acc: V::M,
) -> V::M
    decreases toks.len(),
{
    if toks.len() == 0 {
        acc
    } else {
        let acc2 = match word_vector_spec::<V, T>(t, toks[0]) {
            Some(v) => V::add_model(acc, v),
            None => acc,
        };
        sum_tokens::<V, T>(t, toks.drop_first(), acc2)
    }
}

/// Summing keeps the table's dimension.
pub proof fn lemma_sum_tokens_dim<V: VectorArith, T: WordTable<V>>(
    t: T,
    toks: Seq<Seq<char>>,
    acc: V::M,
)
    requires
        table_wf::<V, T>(t),
        V::dim_model(acc) == t.dim_of(),
    ensures
        V::dim_model(sum_tokens::<V, T>(t, toks, acc)) == t.dim_of(),
    decreases toks.len(),
{
    if toks.len() > 0 {
        match word_vector_spec::<V, T>(t, toks[0]) {
            Some(v) => {
                lemma_sum_tokens_dim::<V, T>(t, toks.drop_first(), V::add_model(acc, v));
            },
            None => {
                lemma_sum_tokens_dim::<V, T>(t, toks.drop_first(), acc);
            },
        }
    }
}

/// The embedding of a text: the sum of its resolvable tokens' vectors,
/// divided by the count of all its tokens; absent when that sum is exactly
/// zero (so in particular for an empty text).
pub open spec fn chunk_spec<V: VectorArith, T: WordTable<V>>(t: T, text: Seq<char>) -> Option<
    V::M,
> {
    let toks = ws_tokens_of(text);
    let s = sum_tokens::<V, T>(t, toks, t.zero_model());
    if V::zero_model(s) {
        None
    } else {
        Some(V::scale_model(s, toks.len()))
    }
}

/// A text whose resolved-token vectors sum to exactly zero has no
/// embedding.
pub proof fn lemma_chunk_zero_sum<V: VectorArith, T: WordTable<V>>(t: T, text: Seq<char>)
    requires
        V::zero_model(sum_tokens::<V, T>(t, ws_tokens_of(text), t.zero_model())),
    ensures
        chunk_spec::<V, T>(t, text) is None,
{
}

/// A present chunk embedding has the table's dimension.
pub proof fn lemma_chunk_dim<V: VectorArith, T: WordTable<V>>(t: T, text: Seq<char>)
    requires
        table_wf::<V, T>(t),
    ensures
        chunk_spec::<V, T>(t, text) matches Some(v) ==> V::dim_model(v) == t.dim_of(),
    {
    lemma_sum_tokens_dim::<V, T>(t, ws_tokens_of(text), t.zero_model());
}

/// Embed a text from the table alone: tokenize, sum what resolves, divide
/// by the total token count; absent for an empty text and whenever the sum
/// is exactly zero.
pub fn get_chunk_embedding<V: VectorArith, T: WordTable<V>>(table: &T, text: &str) -> (r: Option<V>)
    requires
        table_wf::<V, T>(*table),
    ensures
        opt_vec_model(r) == chunk_spec::<V, T>(*table, text@),
        text@.len() == 0 ==> r is None,
{
    let toks = split_tokens(text);
    let ghost tv = ws_tokens_of(text@);
    let mut sum: V = table.zero_vector();
    proof {
        assert(tv.skip(0) =~= tv);
    }
    let mut i: usize = 0;
    while i < toks.len()
        invariant
            i <= toks@.len(),
            toks@.map_values(|t: String| t@) == tv,
            V::dim_model(sum.model()) == table.dim_of(),
            sum_tokens::<V, T>(*table, tv.skip(i as int), sum.model()) == sum_tokens::<V, T>(
                *table,
                tv,
                table.zero_model(),
            ),
        decreases toks@.len() - i,
    {
        proof {
            assert(tv.skip(i as int).drop_first() =~= tv.skip(i as int + 1));
            assert(tv.skip(i as int)[0] == toks@[i as int]@);
        }
        match get_word_embedding::<V, T>(table, toks[i].as_str()) {
            Some(v) => {
                proof {
                    assert(V::dim_model(v.model()) == table.dim_of());
                }
                sum = sum.add(&v);
            },
            None => {},
        }
        i = i + 1;
    }
    proof {
        assert(tv.skip(toks@.len() as int) =~= Seq::<Seq<char>>::empty());
    }
    if sum.is_zero() {
        None
    } else {
        Some(sum.scale_down(toks.len()))
    }
}

/// What one level of enrichment contributes for an unresolved token:
/// resolve it, summarize the resource, embed the summary from the table;
/// absence anywhere on the way contributes nothing.
pub open spec fn enrich_vector_spec<V: VectorArith, T: WordTable<V>, C: Enricher>(
    t: T,
    c: C,
    token: Seq<char>,
) -> Option<V::M> {
    match c.resolve_model(token) {
        Some(res) => match c.summary_model(res) {
            Some(text) => chunk_spec::<V, T>(t, text),
            None => None,
        },
        None => None,
    }
}

/// The enriched sum: tokens the table resolves add their vectors; for the
/// rest, whatever one level of enrichment found is added.
pub open spec fn sum_tokens_enriched<V: VectorArith, T: WordTable<V>, C: Enricher>(
    t: T,
    c: C,
    toks: Seq<Seq<char>>,
    acc: V::M,
) -> V::M
    decreases toks.len(),
{
    if toks.len() == 0 {
        acc
    } else {
        let acc2 = match word_vector_spec::<V, T>(t, toks[0]) {
            Some(v) => V::add_model(acc, v),
            None => match enrich_vector_spec::<V, T, C>(t, c, toks[0]) {
                Some(v) => V::add_model(acc, v),
                None => acc,
            },
        };
        sum_tokens_enriched::<V, T, C>(t, c, toks.drop_first(), acc2)
    }
}

/// The enriched sum keeps the table's dimension.
pub proof fn lemma_sum_tokens_enriched_dim<V: VectorArith, T: WordTable<V>, C: Enricher>(
    t: T,
    c: C,
    toks: Seq<Seq<char>>,
    acc: V::M,
)
    requires
        table_wf::<V, T>(t),
        V::dim_model(acc) == t.dim_of(),
    ensures
        V::dim_model(sum_tokens_enriched::<V, T, C>(t, c, toks, acc)) == t.dim_of(),
    decreases toks.len(),
{
    if toks.len() > 0 {
        let acc2 = match word_vector_spec::<V, T>(t, toks[0]) {
            Some(v) => V::add_model(acc, v),
            None => match enrich_vector_spec::<V, T, C>(t, c, toks[0]) {
                Some(v) => V::add_model(acc, v),
                None => acc,
            },
        };
        if word_vector_spec::<V, T>(t, toks[0]) is None && enrich_vector_spec::<V, T, C>(
            t,
            c,
            toks[0],
        ) is Some {
            lemma_chunk_dim::<V, T>(
                t,
                c.summary_model(c.resolve_model(toks[0]).unwrap()).unwrap(),
            );
        }
        lemma_sum_tokens_enriched_dim::<V, T, C>(t, c, toks.drop_first(), acc2);
    }
}

/// The enriched embedding of a text: as `chunk_spec`, but each unresolved
/// token contributes what one level of enrichment found; the division still
/// uses the count of all tokens. A function of the table's and the client's
/// models alone, so repeated calls on one input agree.
pub open spec fn sentence_spec<V: VectorArith, T: WordTable<V>, C: Enricher>(
    t: T,
    c: C,
    text: Seq<char>,
) -> Option<V::M> {
    let toks = ws_tokens_of(text);
    let s = sum_tokens_enriched::<V, T, C>(t, c, toks, t.zero_model());
    if V::zero_model(s) {
        None
    } else {
        Some(V::scale_model(s, toks.len()))
    }
}

/// A present sentence embedding has the table's dimension.
pub proof fn lemma_sentence_dim<V: VectorArith, T: WordTable<V>, C: Enricher>(
    t: T,
    c: C,
    text: Seq<char>,
)
    requires
        table_wf::<V, T>(t),
    ensures
        sentence_spec::<V, T, C>(t, c, text) matches Some(v) ==> V::dim_model(v) == t.dim_of(),
{
    lemma_sum_tokens_enriched_dim::<V, T, C>(t, c, ws_tokens_of(text), t.zero_model());
}

/// Embed a text with enrichment fallback for unresolved tokens. The result
/// is exactly `sentence_spec` of the table's and the client's models, so
/// repeated calls with one table and one client agree; it is absent for an
/// empty text and whenever the enriched sum is exactly zero.
pub fn get_sentence_embedding<V: VectorArith, T: WordTable<V>, C: Enricher>(
    table: &T,
    client: &C,
    text: &str,
) -> (r: Option<V>)
    requires
        table_wf::<V, T>(*table),
    ensures
        opt_vec_model(r) == sentence_spec::<V, T, C>(*table, *client, text@),
        text@.len() == 0 ==> r is None,
{
    let toks = split_tokens(text);
    let ghost tv = ws_tokens_of(text@);
    let mut sum: V = table.zero_vector();
    proof {
        assert(tv.skip(0) =~= tv);
    }
    let mut i: usize = 0;
    while i < toks.len()
        invariant
            i <= toks@.len(),
            toks@.map_values(|t: String| t@) == tv,
            V::dim_model(sum.model()) == table.dim_of(),
            sum_tokens_enriched::<V, T, C>(*table, *client, tv.skip(i as int), sum.model())
                == sum_tokens_enriched::<V, T, C>(*table, *client, tv, table.zero_model()),
        decreases toks@.len() - i,
    {
        proof {
            assert(tv.skip(i as int).drop_first() =~= tv.skip(i as int + 1));
            assert(tv.skip(i as int)[0] == toks@[i as int]@);
        }
        match get_word_embedding::<V, T>(table, toks[i].as_str()) {
            Some(v) => {
                proof {
                    assert(V::dim_model(v.model()) == table.dim_of());
                }
                sum = sum.add(&v);
            },
            None => {
                let mut contribution: Option<V> = None;
                match client.resolve(toks[i].as_str()) {
                    Some(resource) => {
                        match client.summarize(resource.as_str()) {
                            Some(summary) => {
                                contribution = get_chunk_embedding::<V, T>(table, summary.as_str());
                            },
                            None => {},
                        }
                    },
                    None => {},
                }
                proof {
                    assert(opt_vec_model(contribution) == enrich_vector_spec::<V, T, C>(
                        *table,
                        *client,
                        tv.skip(i as int)[0],
                    ));
                }
                match contribution {
                    Some(v) => {
                        proof {
                            lemma_chunk_dim::<V, T>(
                                *table,
                                client.summary_model(
                                    client.resolve_model(tv.skip(i as int)[0]).unwrap(),
                                ).unwrap(),
                            );
                        }
                        sum = sum.add(&v);
                    },
                    None => {},
                }
            },
        }
        i = i + 1;
    }
    proof {
        assert(tv.skip(toks@.len() as int) =~= Seq::<Seq<char>>::empty());
    }
    if sum.is_zero() {
        None
    } else {
        Some(sum.scale_down(toks.len()))
    }
}

} // verus!
