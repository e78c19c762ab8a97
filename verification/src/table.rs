//! Word vector tables.
//!
//! A `WordTable` maps tokens to vectors of one fixed dimension. Lookup
//! through `get_word_embedding` is case-insensitive: the token is lowercased
//! first, so a table is expected to carry lowercase keys. `MemTable` is
//! the library's own in-memory table over `IntVector`; a host process may
//! implement `WordTable` over a pretrained embedding store instead.
use vstd::prelude::*;
use vstd::pervasive::arbitrary;
use crate::vector::{opt_vec_model, IntVector, VectorArith};
use crate::assoc::{lemma_map_of_contains, lemma_map_of_last_match, lemma_map_of_push, map_of,
    string_eq};

verus! {

/// What `str::to_lowercase` returns for a given character sequence.
pub uninterp spec fn lower_of(s: Seq<char>) -> Seq<char>;

/// Relies on `str::to_lowercase`: the result is the input's lowercase
/// equivalent and depends on its characters alone; an empty input gives an
/// empty result.
#[verifier::external_body]
pub(crate) fn lowercase(s: &str) -> (r: String)
    ensures
        r@ == lower_of(s@),
        s@.len() == 0 ==> r@.len() == 0,
{
    s.to_lowercase()
}

/// The model of an `Option` of vectors.
pub open spec fn opt_model<V: View>(o: Option<V>) -> Option<V::V> {
    match o {
        Some(v) => Some(v@),
        None => None,
    }
}

/// A token-to-vector table with one fixed dimension.
pub trait WordTable<V: VectorArith>: Sized {
    /// The table's contents: token to vector model. The ghost members
    /// carry defaults so that a host process can implement the trait
    /// without writing ghost code; a verified implementation overrides
    /// them.
    open spec fn table(&self) -> Map<Seq<char>, V::M> {
        arbitrary()
    }

    /// The dimension every vector in the table has.
    open spec fn dim_of(&self) -> nat {
        arbitrary()
    }

    /// The model of the zero vector `zero_vector` returns.
    open spec fn zero_model(&self) -> V::M {
        arbitrary()
    }

    /// Exact lookup of a token as given (no case folding here).
    fn lookup(&self, token: &str) -> (r: Option<V>)
        ensures
            r is Some <==> self.table().contains_key(token@),
            r matches Some(v) ==> v.model() == self.table()[token@],
    ;

    /// The zero vector of the table's dimension.
    fn zero_vector(&self) -> (r: V)
        ensures
            r.model() == self.zero_model(),
    ;
}

/// A table is well formed when all its vectors and its zero vector have
/// its dimension, its zero vector is exactly zero, and the vector
/// arithmetic behind it preserves dimensions under addition and scaling.
pub open spec fn table_wf<V: VectorArith, T: WordTable<V>>(t: T) -> bool {
    &&& forall|w: Seq<char>|
        t.table().contains_key(w) ==> V::dim_model(#[trigger] t.table()[w]) == t.dim_of()
    &&& V::dim_model(t.zero_model()) == t.dim_of()
    &&& V::zero_model(t.zero_model())
    &&& forall|a: V::M, b: V::M|
        V::dim_model(a) == V::dim_model(b) ==> V::dim_model(#[trigger] V::add_model(a, b))
            == V::dim_model(a)
    &&& forall|v: V::M, n: nat|
        V::dim_model(#[trigger] V::scale_model(v, n)) == V::dim_model(v)
}

/// What a case-insensitive lookup of `token` finds in `t`.
pub open spec fn word_vector_spec<V: VectorArith, T: WordTable<V>>(t: T, token: Seq<char>) -> Option<
    V::M,
> {
    if t.table().contains_key(lower_of(token)) {
        Some(t.table()[lower_of(token)])
    } else {
        None
    }
}

/// Case-insensitive exact lookup: the token is lowercased, then looked up;
/// absent when the lowercased token is not in the table. Identical tokens
/// resolve identically across calls: the result is a function of the
/// table's contents and the token.
pub fn get_word_embedding<V: VectorArith, T: WordTable<V>>(table: &T, token: &str) -> (r: Option<V>)
    ensures
        opt_vec_model(r) == word_vector_spec(*table, token@),
{
    let lowered = lowercase(token);
    table.lookup(lowered.as_str())
}

/// Lookup is a function of the lowercased token alone: two tokens with the
/// same lowercase form resolve to the same vector, and repeated lookups of
/// one token resolve to the same vector.
pub proof fn lemma_word_vector_case_insensitive<V: VectorArith, T: WordTable<V>>(
    t: T,
    a: Seq<char>,
    b: Seq<char>,
)
    requires
        lower_of(a) == lower_of(b),
    ensures
        word_vector_spec(t, a) == word_vector_spec(t, b),
{
}

/// The library's own in-memory word table over `IntVector`, for stub and
/// test use. Entries are held as an association vector read last-pair-wins,
/// so inserting is appending.
pub struct MemTable {
    dim: usize,
    entries: Vec<(String, IntVector)>,
}

impl MemTable {
    /// The pairs as the spec sees them.
    pub closed spec fn pairs(&self) -> Seq<(Seq<char>, Seq<u64>)> {
        self.entries@.map_values(|p: (String, IntVector)| (p.0@, p.1@))
    }

    /// An empty table of the given dimension.
    pub fn new(dim: usize) -> (r: MemTable)
        ensures
            r.table() == Map::<Seq<char>, Seq<u64>>::empty(),
            r.dim_of() == dim as nat,
            table_wf::<IntVector, MemTable>(r),
    {
        let r = MemTable { dim, entries: Vec::new() };
        proof {
            assert(r.pairs() =~= Seq::<(Seq<char>, Seq<u64>)>::empty());
            assert(r.table() =~= Map::<Seq<char>, Seq<u64>>::empty());
            assert forall|v: Seq<u64>, n: nat|
                IntVector::dim_model(#[trigger] IntVector::scale_model(v, n)) == IntVector::dim_model(
                v,
            ) by {
                assert(IntVector::scale_model(v, n).len() == v.len());
            }
        }
        r
    }

    /// Insert or overwrite one word's vector.
    pub fn insert(&mut self, word: String, v: IntVector)
        requires
            v@.len() == old(self).dim_of(),
        ensures
            final(self).table() == old(self).table().insert(word@, v@),
            final(self).dim_of() == old(self).dim_of(),
            table_wf::<IntVector, MemTable>(*old(self)) ==> table_wf::<IntVector, MemTable>(
                *final(self),
            ),
    {
        let ghost pre = self.pairs();
        proof {
            lemma_map_of_push(pre, word@, v@);
        }
        self.entries.push((word, v));
        proof {
            assert(self.pairs() =~= pre.push((word@, v@)));
        }
    }
}

impl WordTable<IntVector> for MemTable {
    closed spec fn table(&self) -> Map<Seq<char>, Seq<u64>> {
        map_of(self.pairs())
    }

    closed spec fn dim_of(&self) -> nat {
        self.dim as nat
    }

    closed spec fn zero_model(&self) -> Seq<u64> {
        Seq::new(self.dim as nat, |i: int| 0u64)
    }

    fn lookup(&self, token: &str) -> (r: Option<IntVector>) {
        let tok = token.to_owned();
        let mut i: usize = self.entries.len();
        while i > 0
            invariant
                i <= self.entries@.len(),
                forall|j: int| i <= j < self.pairs().len() ==> (#[trigger] self.pairs()[j]).0 != token@,
            decreases i,
        {
            i = i - 1;
            let hit = {
                let p = &self.entries[i];
                string_eq(&p.0, &tok)
            };
            if hit {
                proof {
                    lemma_map_of_last_match(self.pairs(), i as int, token@);
                    self.entries@[i as int].1.lemma_model_view();
                }
                let p = &self.entries[i];
                return Some(p.1.duplicate());
            }
        }
        proof {
            lemma_map_of_contains(self.pairs(), token@);
        }
        None
    }

    fn zero_vector(&self) -> (r: IntVector) {
        let r = IntVector::zeros(self.dim);
        proof {
            r.lemma_model_view();
        }
        r
    }
}

} // verus!
