//! Abstract dense vectors.
//!
//! The embedding pipeline and the vector index only ever add vectors,
//! scale them down by a token count, test them for zero and compare them
//! by a similarity score. `VectorArith` captures exactly those operations,
//! each pinned to a model-level spec function, so the algorithms above it
//! are verified for every implementation. `IntVector` is the library's own
//! verified implementation over `u64` components with wrapping arithmetic.
use vstd::prelude::*;
use vstd::pervasive::arbitrary;
use vstd::wrapping::u64_specs;

verus! {

/// The operations the embedding pipeline and the vector index need from a
/// dense vector. Every executable method is pinned to a spec function over
/// the vector's model, so callers reason about models only.
///
/// Similarity scores are `u64` keys: a higher key means a closer vector,
/// and equal inputs always give equal keys, which is what the index needs
/// for deterministic ranking.
pub trait VectorArith: Sized {
    /// The spec-level model of a vector.
    type M;

    /// What a vector is, as the spec sees it. The ghost members carry
    /// defaults so that a host process can implement the trait without
    /// writing ghost code; a verified implementation overrides them.
    open spec fn model(&self) -> Self::M {
        arbitrary()
    }

    /// Dimension of a vector model.
    open spec fn dim_model(v: Self::M) -> nat {
        arbitrary()
    }

    /// Model of componentwise addition.
    open spec fn add_model(a: Self::M, b: Self::M) -> Self::M {
        arbitrary()
    }

    /// Model of dividing every component by a token count.
    open spec fn scale_model(v: Self::M, n: nat) -> Self::M {
        arbitrary()
    }

    /// Whether a vector model is exactly the zero vector.
    open spec fn zero_model(v: Self::M) -> bool {
        arbitrary()
    }

    /// Model of the similarity score between two vectors.
    open spec fn sim_model(a: Self::M, b: Self::M) -> u64 {
        arbitrary()
    }

    fn dim(&self) -> (r: usize)
        ensures
            r as nat == Self::dim_model(self.model()),
    ;

    fn add(&self, other: &Self) -> (r: Self)
        requires
            Self::dim_model(self.model()) == Self::dim_model(other.model()),
        ensures
            r.model() == Self::add_model(self.model(), other.model()),
    ;

    fn scale_down(&self, n: usize) -> (r: Self)
        requires
            n >= 1,
        ensures
            r.model() == Self::scale_model(self.model(), n as nat),
    ;

    fn is_zero(&self) -> (r: bool)
        ensures
            r == Self::zero_model(self.model()),
    ;

    fn similarity(&self, other: &Self) -> (r: u64)
        requires
            Self::dim_model(self.model()) == Self::dim_model(other.model()),
        ensures
            r == Self::sim_model(self.model(), other.model()),
    ;

    fn duplicate(&self) -> (r: Self)
        ensures
            r.model() == self.model(),
    ;
}

/// The model of an optional vector.
pub open spec fn opt_vec_model<V: VectorArith>(o: Option<V>) -> Option<V::M> {
    match o {
        Some(v) => Some(v.model()),
        None => None,
    }
}

/// The library's own vector representation: `u64` components, addition and
/// dot products wrapping on overflow, scaling by integer division.
pub struct IntVector {
    comps: Vec<u64>,
}

impl View for IntVector {
    type V = Seq<u64>;

    closed spec fn view(&self) -> Seq<u64> {
        self.comps@
    }
}

/// One component divided by a token count; division by zero gives zero.
pub open spec fn div_comp(x: u64, d: u64) -> u64 {
    if d == 0 {
        0u64
    } else {
        x / d
    }
}

/// Wrapping dot product of the first `i` components.
pub open spec fn dot_prefix(a: Seq<u64>, b: Seq<u64>, i: int) -> u64
    decreases i,
{
    if i <= 0 || i > a.len() || i > b.len() {
        0u64
    } else {
        u64_specs::wrapping_add(
            dot_prefix(a, b, i - 1),
            u64_specs::wrapping_mul(a[i - 1], b[i - 1]),
        )
    }
}

impl IntVector {
    /// The all-zero vector of the given dimension.
    pub fn zeros(dim: usize) -> (r: IntVector)
        ensures
            r@ == Seq::new(dim as nat, |i: int| 0u64),
    {
        let comps: Vec<u64> = vec![0u64; dim];
        proof {
            assert(comps@ =~= Seq::new(dim as nat, |i: int| 0u64));
        }
        IntVector { comps }
    }

    /// A vector with the given components.
    pub fn from_components(comps: Vec<u64>) -> (r: IntVector)
        ensures
            r@ == comps@,
    {
        IntVector { comps }
    }

    /// The model and the view of an `IntVector` agree.
    pub proof fn lemma_model_view(&self)
        ensures
            self.model() == self@,
    {
    }

    /// The components, for callers outside the library.
    pub fn components(&self) -> (r: &Vec<u64>)
        ensures
            r@ == self@,
    {
        &self.comps
    }
}

impl VectorArith for IntVector {
    type M = Seq<u64>;

    closed spec fn model(&self) -> Seq<u64> {
        self.comps@
    }

    open spec fn dim_model(v: Seq<u64>) -> nat {
        v.len()
    }

    open spec fn add_model(a: Seq<u64>, b: Seq<u64>) -> Seq<u64> {
        Seq::new(a.len(), |i: int| u64_specs::wrapping_add(a[i], b[i]))
    }

    open spec fn scale_model(v: Seq<u64>, n: nat) -> Seq<u64> {
        Seq::new(v.len(), |i: int| div_comp(v[i], n as u64))
    }

    open spec fn zero_model(v: Seq<u64>) -> bool {
        forall|i: int| 0 <= i < v.len() ==> v[i] == 0u64
    }

    open spec fn sim_model(a: Seq<u64>, b: Seq<u64>) -> u64 {
        dot_prefix(a, b, a.len() as int)
    }

    fn dim(&self) -> (r: usize) {
        self.comps.len()
    }

    fn add(&self, other: &Self) -> (r: Self) {
        let mut out: Vec<u64> = Vec::new();
        let mut i: usize = 0;
        while i < self.comps.len()
            invariant
                i <= self.comps@.len(),
                out@.len() == i as nat,
                forall|j: int|
                    0 <= j < i ==> out@[j] == u64_specs::wrapping_add(self.comps@[j], other.comps@[j]),
            decreases self.comps@.len() - i,
        {
            out.push(self.comps[i].wrapping_add(other.comps[i]));
            i = i + 1;
        }
        proof {
            assert(out@ =~= Self::add_model(self@, other@));
        }
        IntVector { comps: out }
    }

    fn scale_down(&self, n: usize) -> (r: Self) {
        let d: u64 = n as u64;
        let mut out: Vec<u64> = Vec::new();
        let mut i: usize = 0;
        while i < self.comps.len()
            invariant
                d == n as u64,
                d >= 1,
                i <= self.comps@.len(),
                out@.len() == i as nat,
                forall|j: int| 0 <= j < i ==> out@[j] == div_comp(self.comps@[j], d),
            decreases self.comps@.len() - i,
        {
            out.push(self.comps[i] / d);
            i = i + 1;
        }
        proof {
            assert(out@ =~= Self::scale_model(self@, n as nat));
        }
        IntVector { comps: out }
    }

    fn is_zero(&self) -> (r: bool) {
        let mut i: usize = 0;
        while i < self.comps.len()
            invariant
                i <= self.comps@.len(),
                forall|j: int| 0 <= j < i ==> self.comps@[j] == 0u64,
            decreases self.comps@.len() - i,
        {
            if self.comps[i] != 0u64 {
                return false;
            }
            i = i + 1;
        }
        true
    }

    fn similarity(&self, other: &Self) -> (r: u64) {
        let mut acc: u64 = 0;
        let mut i: usize = 0;
        while i < self.comps.len()
            invariant
                Self::dim_model(self@) == Self::dim_model(other@),
                i <= self.comps@.len(),
                acc == dot_prefix(self@, other@, i as int),
            decreases self.comps@.len() - i,
        {
            acc = acc.wrapping_add(self.comps[i].wrapping_mul(other.comps[i]));
            i = i + 1;
        }
        acc
    }

    fn duplicate(&self) -> (r: Self) {
        let mut out: Vec<u64> = Vec::new();
        let mut i: usize = 0;
        while i < self.comps.len()
            invariant
                i <= self.comps@.len(),
                out@.len() == i as nat,
                forall|j: int| 0 <= j < i ==> out@[j] == self.comps@[j],
            decreases self.comps@.len() - i,
        {
            out.push(self.comps[i]);
            i = i + 1;
        }
        proof {
            assert(out@ =~= self@);
        }
        IntVector { comps: out }
    }
}

} // verus!
