//! The vector index.
//!
//! Built once from a full snapshot of stored vectors, immutable after
//! build, and answering k-nearest-neighbor queries: every entry is scored
//! against the query and the k best come back in descending score order,
//! ties broken by ascending key, so a fixed build answers repeated
//! identical queries with identical order. Pagination is layered on top by
//! `page_window`: fetch the first `page · size` neighbors, then slice —
//! deliberately, cost growing with the page number.
use vstd::prelude::*;
use vstd::math::min;
use vstd::relations::{sorted_by, total_ordering};
use vstd::seq_lib::lemma_sorted_unique;
use crate::assoc::keys_unique;
use crate::store::EntryStore;
use crate::vector::VectorArith;

verus! {

/// The ranking order on scored entries: a higher score comes first; equal
/// scores order by ascending key.
pub open spec fn rank_leq(a: (u128, u64), b: (u128, u64)) -> bool {
    b.1 < a.1 || (a.1 == b.1 && a.0 <= b.0)
}

/// The ranking order as a relation value.
pub open spec fn rank_order() -> spec_fn((u128, u64), (u128, u64)) -> bool {
    |a: (u128, u64), b: (u128, u64)| rank_leq(a, b)
}

/// The ranking order is total, so a ranking is the one sorted permutation
/// of the scored entries.
pub proof fn lemma_rank_order_total()
    ensures
        total_ordering(rank_order()),
{
    let leq = rank_order();
    assert forall|x: (u128, u64)| #[trigger] leq(x, x) by {}
    assert forall|x: (u128, u64), y: (u128, u64)| #[trigger] leq(x, y) && #[trigger] leq(y, x)
        implies x == y by {}
    assert forall|x: (u128, u64), y: (u128, u64), z: (u128, u64)|
        #[trigger] leq(x, y) && #[trigger] leq(y, z) implies leq(x, z) by {}
    assert forall|x: (u128, u64), y: (u128, u64)| #[trigger] leq(x, y) || #[trigger] leq(y,
        x) by {}
}

/// Errors of index construction.
#[derive(Debug)]
pub enum IndexError {
    /// Some vector's dimension differs from the index dimension.
    DimensionMismatch,
}

/// An immutable vector index: keyed vectors of one fixed dimension.
pub struct VecIndex<V> {
    dim: usize,
    items: Vec<(u128, V)>,
}

/// Comparison in the ranking order.
fn rank_le(a: &(u128, u64), b: &(u128, u64)) -> (r: bool)
    ensures
        r == rank_leq(*a, *b),
{
    b.1 < a.1 || (a.1 == b.1 && a.0 <= b.0)
}

impl<V: VectorArith> VecIndex<V> {
    /// The indexed entries as the spec sees them.
    pub closed spec fn entries(&self) -> Seq<(u128, V::M)> {
        self.items@.map_values(|p: (u128, V)| (p.0, p.1.model()))
    }

    /// The index dimension.
    pub closed spec fn dim_of(&self) -> nat {
        self.dim as nat
    }

    /// Every indexed vector has the index dimension.
    pub open spec fn wf(&self) -> bool {
        forall|i: int|
            0 <= i < self.entries().len() ==> V::dim_model((#[trigger] self.entries()[i]).1)
                == self.dim_of()
    }

    /// Each entry scored against a query.
    pub open spec fn scored(&self, q: V::M) -> Seq<(u128, u64)> {
        self.entries().map_values(|p: (u128, V::M)| (p.0, V::sim_model(p.1, q)))
    }

    /// The full ranking for a query: the scored entries sorted in the
    /// ranking order.
    pub open spec fn ranking(&self, q: V::M) -> Seq<(u128, u64)> {
        self.scored(q).sort_by(rank_order())
    }

    /// Build once from a snapshot of keyed vectors; a vector of mismatched
    /// dimension is a construction error, and nothing else is.
    pub fn build(dim: usize, items: Vec<(u128, V)>) -> (r: Result<VecIndex<V>, IndexError>)
        ensures
            r is Ok <==> (forall|i: int|
                0 <= i < items@.len() ==> V::dim_model((#[trigger] items@[i]).1.model()) == dim as nat),
            r matches Ok(ix) ==> ix.entries() == items@.map_values(|p: (u128, V)| (p.0, p.1.model()))
                && ix.dim_of() == dim as nat && ix.wf(),
            r is Err ==> (r matches Err(e) && e is DimensionMismatch),
    {
        let mut i: usize = 0;
        while i < items.len()
            invariant
                i <= items@.len(),
                forall|j: int| 0 <= j < i ==> V::dim_model((#[trigger] items@[j]).1.model()) == dim as nat,
            decreases items@.len() - i,
        {
            if items[i].1.dim() != dim {
                return Err(IndexError::DimensionMismatch);
            }
            i = i + 1;
        }
        let ix = VecIndex { dim, items };
        proof {
            assert forall|i2: int| 0 <= i2 < ix.entries().len() implies V::dim_model(
                (#[trigger] ix.entries()[i2]).1,
            ) == ix.dim_of() by {
                assert(ix.entries()[i2] == (ix.items@[i2].0, ix.items@[i2].1.model()));
            }
        }
        Ok(ix)
    }

    /// How many entries the index holds.
    pub fn len(&self) -> (r: usize)
        ensures
            r as nat == self.entries().len(),
    {
        self.items.len()
    }

    /// The index dimension.
    pub fn dimension(&self) -> (r: usize)
        ensures
            r as nat == self.dim_of(),
    {
        self.dim
    }

    /// The k nearest entries to a query: the first k of the ranking, in
    /// ranking order — all of them when the index holds fewer than k.
    pub fn search(&self, query: &V, k: usize) -> (r: Vec<(u128, u64)>)
        requires
            self.wf(),
            V::dim_model(query.model()) == self.dim_of(),
        ensures
            r@ == self.ranking(query.model()).take(
                min(k as int, self.entries().len() as int),
            ),
    {
        broadcast use vstd::seq_lib::group_to_multiset_ensures;

        let ghost q = query.model();
        // score every entry
        let mut scores: Vec<(u128, u64)> = Vec::new();
        let mut i: usize = 0;
        while i < self.items.len()
            invariant
                i <= self.items@.len(),
                scores@.len() == i as nat,
                forall|j: int|
                    0 <= j < i ==> scores@[j] == ((#[trigger] self.entries()[j]).0, V::sim_model(
                        self.entries()[j].1,
                        q,
                    )),
            decreases self.items@.len() - i,
        {
            proof {
                assert(self.entries()[i as int] == (self.items@[i as int].0, self.items@[i as int].1.model()));
            }
            let s = self.items[i].1.similarity(query);
            scores.push((self.items[i].0, s));
            i = i + 1;
        }
        proof {
            assert(scores@ =~= self.scored(q));
        }
        // sort into the ranking order
        let mut sorted: Vec<(u128, u64)> = Vec::new();
        let mut i: usize = 0;
        proof {
            assert(scores@.take(0) =~= Seq::<(u128, u64)>::empty());
            assert(sorted@ =~= Seq::<(u128, u64)>::empty());
        }
        while i < scores.len()
            invariant
                i <= scores@.len(),
                sorted_by(sorted@, rank_order()),
                sorted@.to_multiset() == scores@.take(i as int).to_multiset(),
            decreases scores@.len() - i,
        {
            let x = scores[i];
            let ghost pre = sorted@;
            let mut p: usize = 0;
            #[verifier::loop_isolation(true)]
            loop
                invariant_except_break
                    p <= sorted@.len(),
                    sorted@ == pre,
                    forall|a: int| 0 <= a < p ==> rank_leq(#[trigger] sorted@[a], x),
                ensures
                    p <= sorted@.len(),
                    sorted@ == pre,
                    forall|a: int| 0 <= a < p ==> rank_leq(#[trigger] sorted@[a], x),
                    p < sorted@.len() ==> !rank_leq(sorted@[p as int], x),
                decreases sorted@.len() - p,
            {
                if p == sorted.len() {
                    break ;
                }
                if !rank_le(&sorted[p], &x) {
                    break ;
                }
                p = p + 1;
            }
            sorted.insert(p, x);
            proof {
                lemma_rank_order_total();
                let leq = rank_order();
                assert forall|a: int, b: int| 0 <= a < b < sorted@.len() implies #[trigger] leq(
                    sorted@[a],
                    sorted@[b],
                ) by {
                    if b < p as int {
                        assert(sorted@[a] == pre[a] && sorted@[b] == pre[b]);
                    } else if a < p as int && b == p as int {
                        assert(sorted@[a] == pre[a]);
                    } else if a == p as int {
                        assert(sorted@[b] == pre[b - 1]);
                        assert(!rank_leq(pre[p as int], x));
                        assert(rank_leq(x, pre[p as int]));
                        assert(leq(pre[p as int], pre[b - 1]) || p as int == b - 1);
                    } else if a < p as int {
                        assert(sorted@[a] == pre[a] && sorted@[b] == pre[b - 1]);
                        assert(a < b - 1 + 1);
                        assert(leq(pre[a], pre[b - 1]) || a == b - 1);
                    } else {
                        assert(sorted@[a] == pre[a - 1] && sorted@[b] == pre[b - 1]);
                    }
                }
                assert(scores@.take(i as int + 1) =~= scores@.take(i as int).push(x));
                assert(sorted@.to_multiset() == scores@.take(i as int + 1).to_multiset());
            }
            i = i + 1;
        }
        proof {
        assert(scores@.take(scores@.len() as int) =~= scores@);
            lemma_rank_order_total();
            self.scored(q).lemma_sort_by_ensures(rank_order());
            assert(sorted@.to_multiset() == self.ranking(q).to_multiset());
            lemma_sorted_unique(sorted@, self.ranking(q), rank_order());
            assert(sorted@ == self.ranking(q));
            assert(sorted@.len() == sorted@.to_multiset().len());
            assert(self.scored(q).len() == self.scored(q).to_multiset().len());
            assert(sorted@.len() == self.entries().len());
        }
        // keep the k best
        let n = self.items.len();
        let keep = if k < n {
            k
        } else {
            n
        };
        let mut r = sorted;
        r.truncate(keep);
        proof {
            assert(r@ =~= self.ranking(q).take(min(k as int, self.entries().len() as int)));
        }
        r
    }
}

/// With pairwise-distinct entry keys, a ranking carries each key once, so
/// two page windows of one ranking never share a key.
pub proof fn lemma_ranking_keys_unique<V: VectorArith>(ix: VecIndex<V>, q: V::M)
    requires
        keys_unique(ix.entries()),
    ensures
        keys_unique(ix.ranking(q)),
{
    broadcast use vstd::seq_lib::group_to_multiset_ensures;

    lemma_rank_order_total();
    let sc = ix.scored(q);
    let rk = ix.ranking(q);
    ix.scored(q).lemma_sort_by_ensures(rank_order());
    assert forall|i: int, j: int| 0 <= i < j < sc.len() implies (#[trigger] sc[i]).0 != (
    #[trigger] sc[j]).0 by {
        assert(sc[i] == ((ix.entries()[i]).0, V::sim_model(ix.entries()[i].1, q)));
        assert(sc[j] == ((ix.entries()[j]).0, V::sim_model(ix.entries()[j].1, q)));
        assert((ix.entries()[i]).0 != (ix.entries()[j]).0);
    }
    assert(sc.no_duplicates());
    sc.lemma_multiset_has_no_duplicates();
    assert forall|x: (u128, u64)| rk.to_multiset().contains(x) implies rk.to_multiset().count(x)
        == 1 by {
        assert(sc.to_multiset().contains(x));
    }
    rk.lemma_multiset_has_no_duplicates_conv();
    assert forall|a: int, b: int| 0 <= a < b < rk.len() implies (#[trigger] rk[a]).0 != (
    #[trigger] rk[b]).0 by {
        if rk[a].0 == rk[b].0 {
            assert(rk[a] != rk[b]);
            assert(rk.contains(rk[a]));
            assert(rk.contains(rk[b]));
            assert(sc.to_multiset().count(rk[a]) > 0);
            assert(sc.to_multiset().count(rk[b]) > 0);
            assert(sc.contains(rk[a]));
            assert(sc.contains(rk[b]));
            let ia = choose|ia: int| 0 <= ia < sc.len() && sc[ia] == rk[a];
            let ib = choose|ib: int| 0 <= ib < sc.len() && sc[ib] == rk[b];
            assert(sc[ia].0 == sc[ib].0);
            assert(false);
        }
    }
}

/// Rebuild the index from a full store scan: every readable record's
/// vector is indexed under the record's key; a record that cannot be read
/// back is skipped and the rebuild continues; a readable vector of the
/// wrong dimension is a construction error.
pub fn rebuild_index<V: VectorArith, S: EntryStore<V>>(store: &S, dim: usize) -> (r: Result<
    VecIndex<V>,
    IndexError,
>)
    ensures
        r matches Ok(ix) ==> ({
            &&& ix.dim_of() == dim as nat
            &&& ix.wf()
            &&& keys_unique(ix.entries())
            &&& forall|a: int|
                0 <= a < ix.entries().len() ==> (store.model().contains_key(
                    (#[trigger] ix.entries()[a]).0,
                ) && (store.model()[ix.entries()[a].0] matches Some(e) && e.vector
                    == ix.entries()[a].1))
            &&& forall|k: u128|
                store.model().contains_key(k) && store.model()[k] is Some ==> exists|a: int|
                    0 <= a < ix.entries().len() && (#[trigger] ix.entries()[a]).0 == k
        }),
        r is Err ==> exists|k: u128|
            store.model().contains_key(k) && ((#[trigger] store.model()[k]) matches Some(e)
                && V::dim_model(e.vector) != dim as nat),
{
    let snap = store.snapshot();
    let ghost sv = snap@.map_values(|p: (u128, crate::entry::CrawledEntry<V>)| (p.0, p.1@));
    let mut items: Vec<(u128, V)> = Vec::new();
    let mut i: usize = 0;
    while i < snap.len()
        invariant
            i <= snap@.len(),
            items@.len() == i as nat,
            forall|j: int|
                0 <= j < i ==> (#[trigger] items@[j]).0 == sv[j].0 && items@[j].1.model() == sv[j].1.vector,
        decreases snap@.len() - i,
    {
        proof {
            assert(sv[i as int] == (snap@[i as int].0, snap@[i as int].1@));
        }
        let v = snap[i].1.vector.duplicate();
        items.push((snap[i].0, v));
        i = i + 1;
    }
    let ghost iv = items@.map_values(|p: (u128, V)| (p.0, p.1.model()));
    proof {
        assert forall|j: int| 0 <= j < iv.len() implies (#[trigger] iv[j]) == (
            sv[j].0,
            sv[j].1.vector,
        ) by {
            assert(iv[j] == (items@[j].0, items@[j].1.model()));
        }
    }
    match VecIndex::build(dim, items) {
        Ok(ix) => {
            proof {
                assert forall|a: int, b: int| 0 <= a < b < ix.entries().len() implies (
                #[trigger] ix.entries()[a]).0 != (#[trigger] ix.entries()[b]).0 by {
                    assert(sv[a].0 != sv[b].0);
                }
                assert forall|k: u128|
                    store.model().contains_key(k) && store.model()[k] is Some implies exists|a: int|
                    0 <= a < ix.entries().len() && (#[trigger] ix.entries()[a]).0 == k by {
                    let a = choose|a: int| 0 <= a < sv.len() && (#[trigger] sv[a]).0 == k;
                    assert(ix.entries()[a].0 == k);
                }
            }
            Ok(ix)
        },
        Err(e) => {
            proof {
                assert(exists|j: int|
                    0 <= j < sv.len() && V::dim_model((#[trigger] sv[j]).1.vector) != dim as nat)
                    by {
                    let j = choose|j: int|
                        !(0 <= j < sv.len() ==> V::dim_model((#[trigger] sv[j]).1.vector)
                            == dim as nat);
                    assert(!(V::dim_model(sv[j].1.vector) == dim as nat) ==> V::dim_model(
                        (#[trigger] sv[j]).1.vector,
                    ) != dim as nat);
                }
                let j = choose|j: int|
                    0 <= j < sv.len() && V::dim_model((#[trigger] sv[j]).1.vector) != dim as nat;
                assert(store.model().contains_key(sv[j].0));
                assert(store.model()[sv[j].0] == Some(sv[j].1));
            }
            Err(e)
        },
    }
}

/// The fetch-then-slice page window: of the first `page · size` ranked
/// results, drop the first `(page − 1) · size`.
pub fn page_window<T>(fetched: Vec<T>, page: usize, size: usize) -> (w: Vec<T>)
    requires
        page >= 1,
        page * size <= usize::MAX,
    ensures
        w@ == fetched@.skip(min((page - 1) * size, fetched@.len() as int)),
{
    proof {
        assert((page - 1) * size <= page * size) by (nonlinear_arith)
            requires
                page >= 1,
        ;
    }
    let offset = (page - 1) * size;
    if offset >= fetched.len() {
        proof {
            assert(fetched@.skip(fetched@.len() as int) =~= Seq::<T>::empty());
        }
        return Vec::new();
    }
    let mut fetched = fetched;
    let tail = fetched.split_off(offset);
    tail
}

} // verus!
