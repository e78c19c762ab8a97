//! The entry store.
//!
//! Durable keyed storage of one record per crawled page, used through
//! `put`, `get` and a full-scan `snapshot` only. The key of a page is a
//! deterministic hash of its URL, so re-crawling a page overwrites rather
//! than duplicates. A record that cannot be read back is modelled as `None`:
//! a bulk snapshot skips it, while `get` reports it as `Corrupt` — the two
//! paths deliberately differ. `MemStore` is the library's own in-memory
//! store; a host process implements `EntryStore` over its on-disk engine.
use vstd::prelude::*;
use vstd::pervasive::arbitrary;
use crate::assoc::{keys_unique, lemma_map_of_contains, lemma_map_of_last_match, lemma_map_of_push,
    map_of};
use crate::entry::{CrawledEntry, EntryModel};
use crate::vector::{opt_vec_model, VectorArith};

verus! {

/// What `uuid::Uuid::new_v5` under the URL namespace, read as an integer,
/// returns for a URL: a deterministic hash of the URL alone.
pub uninterp spec fn key_of(url: Seq<char>) -> u128;

/// Relies on `uuid::Uuid::new_v5` with `Uuid::NAMESPACE_URL` and
/// `Uuid::as_u128`: a name-based (SHA-1) UUID, a function of the URL bytes
/// alone.
#[verifier::external_body]
pub(crate) fn entry_key(url: &str) -> (r: u128)
    ensures
        r == key_of(url@),
{
    uuid::Uuid::new_v5(&uuid::Uuid::NAMESPACE_URL, url.as_bytes()).as_u128()
}

/// What `get` found under a key.
pub enum GetOutcome<V> {
    /// No record has this key.
    Missing,
    /// A record has this key but cannot be read back.
    Corrupt,
    /// The record under this key.
    Found(CrawledEntry<V>),
}

/// A snapshot lists, with pairwise-distinct keys and in no promised order,
/// exactly the readable records of the store.
pub open spec fn snapshot_ok<M>(
    s: Seq<(u128, EntryModel<M>)>,
    m: Map<u128, Option<EntryModel<M>>>,
) -> bool {
    &&& keys_unique(s)
    &&& forall|a: int|
        0 <= a < s.len() ==> m.contains_key((#[trigger] s[a]).0) && m[s[a].0] == Some(s[a].1)
    &&& forall|k: u128|
        m.contains_key(k) && m[k] is Some ==> exists|a: int|
            0 <= a < s.len() && (#[trigger] s[a]).0 == k
}

/// Keyed storage of crawled entries: upserting `put`, point `get`, and a
/// bulk `snapshot` of the readable records for an index rebuild.
pub trait EntryStore<V: VectorArith>: Sized {
    /// The records by key; `None` is a record that cannot be read back.
    /// The ghost member carries a default so that a host process can
    /// implement the trait without writing ghost code; a verified
    /// implementation overrides it.
    open spec fn model(&self) -> Map<u128, Option<EntryModel<V::M>>> {
        arbitrary()
    }

    /// Insert or overwrite the record under a key.
    fn put(&mut self, key: u128, entry: CrawledEntry<V>)
        ensures
            final(self).model() == old(self).model().insert(key, Some(entry@)),
    ;

    /// Look one key up.
    fn get(&self, key: u128) -> (r: GetOutcome<V>)
        ensures
            r is Missing <==> !self.model().contains_key(key),
            r is Corrupt <==> (self.model().contains_key(key) && self.model()[key] is None),
            r matches GetOutcome::Found(e) ==> self.model()[key] == Some(e@),
    ;

    /// All readable records; a record that cannot be read back is skipped.
    fn snapshot(&self) -> (r: Vec<(u128, CrawledEntry<V>)>)
        ensures
            snapshot_ok(
                r@.map_values(|p: (u128, CrawledEntry<V>)| (p.0, p.1@)),
                self.model(),
            ),
    ;
}

/// Store an entry under the deterministic hash of its URL.
pub fn put_entry<V: VectorArith, S: EntryStore<V>>(store: &mut S, entry: CrawledEntry<V>)
    ensures
        final(store).model() == old(store).model().insert(key_of(entry.url@), Some(entry@)),
{
    let key = entry_key(entry.url.as_str());
    store.put(key, entry);
}

/// The model of an optional entry.
pub open spec fn opt_entry_model<V: VectorArith>(o: Option<CrawledEntry<V>>) -> Option<
    EntryModel<V::M>,
> {
    match o {
        Some(e) => Some(e@),
        None => None,
    }
}

/// The library's own in-memory entry store: an association vector read
/// last-pair-wins, so `put` is appending.
pub struct MemStore<V> {
    recs: Vec<(u128, Option<CrawledEntry<V>>)>,
}

impl<V: VectorArith> MemStore<V> {
    /// The pairs as the spec sees them.
    pub closed spec fn pairs(&self) -> Seq<(u128, Option<EntryModel<V::M>>)> {
        self.recs@.map_values(|p: (u128, Option<CrawledEntry<V>>)| (p.0, opt_entry_model(p.1)))
    }

    /// An empty store.
    pub fn new() -> (r: MemStore<V>)
        ensures
            r.model() == Map::<u128, Option<EntryModel<V::M>>>::empty(),
    {
        let r = MemStore { recs: Vec::new() };
        proof {
            assert(r.pairs() =~= Seq::<(u128, Option<EntryModel<V::M>>)>::empty());
            assert(r.model() =~= Map::<u128, Option<EntryModel<V::M>>>::empty());
        }
        r
    }

    /// Plant a record that cannot be read back, as a store whose engine
    /// corrupted one value would show it.
    pub fn put_corrupt(&mut self, key: u128)
        ensures
            final(self).model() == old(self).model().insert(key, None),
    {
        let ghost pre = self.pairs();
        proof {
            lemma_map_of_push(pre, key, None::<EntryModel<V::M>>);
        }
        self.recs.push((key, None));
        proof {
            assert(self.pairs() =~= pre.push((key, None)));
        }
    }
}

/// Does a key occur in the list?
fn key_seen(seen: &Vec<u128>, k: u128) -> (b: bool)
    ensures
        b == seen@.contains(k),
{
    let mut i: usize = 0;
    while i < seen.len()
        invariant
            i <= seen@.len(),
            forall|j: int| 0 <= j < i ==> seen@[j] != k,
        decreases seen@.len() - i,
    {
        if seen[i] == k {
            return true;
        }
        i = i + 1;
    }
    false
}

impl<V: VectorArith> EntryStore<V> for MemStore<V> {
    closed spec fn model(&self) -> Map<u128, Option<EntryModel<V::M>>> {
        map_of(self.pairs())
    }

    fn put(&mut self, key: u128, entry: CrawledEntry<V>) {
        let ghost pre = self.pairs();
        proof {
            lemma_map_of_push(pre, key, Some(entry@));
        }
        self.recs.push((key, Some(entry)));
        proof {
            assert(self.pairs() =~= pre.push((key, Some(entry@))));
        }
    }

    fn get(&self, key: u128) -> (r: GetOutcome<V>) {
        let mut i: usize = self.recs.len();
        while i > 0
            invariant
                i <= self.recs@.len(),
                forall|j: int| i <= j < self.pairs().len() ==> (#[trigger] self.pairs()[j]).0 != key,
            decreases i,
        {
            i = i - 1;
            if self.recs[i].0 == key {
                proof {
                    lemma_map_of_last_match(self.pairs(), i as int, key);
                }
                match &self.recs[i].1 {
                    Some(e) => {
                        return GetOutcome::Found(e.duplicate());
                    },
                    None => {
                        return GetOutcome::Corrupt;
                    },
                }
            }
        }
        proof {
            lemma_map_of_contains(self.pairs(), key);
        }
        GetOutcome::Missing
    }

    fn snapshot(&self) -> (r: Vec<(u128, CrawledEntry<V>)>) {
        let ghost ps = self.pairs();
        let ghost n = ps.len() as int;
        let mut out: Vec<(u128, CrawledEntry<V>)> = Vec::new();
        let mut seen: Vec<u128> = Vec::new();
        let mut i: usize = self.recs.len();
        while i > 0
            invariant
                i <= self.recs@.len(),
                // seen holds exactly the keys of the processed tail
                forall|k: u128|
                    seen@.contains(k) <==> exists|j: int| i <= j < n && (#[trigger] ps[j]).0 == k,
                // each kept record is the readable last occurrence of its key
                forall|a: int|
                    0 <= a < out@.len() ==> exists|j: int|
                        i <= j < n && (#[trigger] ps[j]).0 == (#[trigger] out@[a]).0 && ps[j].1
                            == Some(out@[a].1@) && (forall|j2: int|
                            j < j2 < n ==> (#[trigger] ps[j2]).0 != ps[j].0),
                // every readable last occurrence in the processed tail is kept
                forall|j: int|
                    i <= j < n && (#[trigger] ps[j]).1 is Some && (forall|j2: int|
                        j < j2 < n ==> (#[trigger] ps[j2]).0 != ps[j].0) ==> exists|a: int|
                        0 <= a < out@.len() && (#[trigger] out@[a]).0 == ps[j].0,
                // kept keys are pairwise distinct
                forall|a: int, b: int|
                    0 <= a < b < out@.len() ==> (#[trigger] out@[a]).0 != (#[trigger] out@[b]).0,
                // kept keys were all seen
                forall|a: int| 0 <= a < out@.len() ==> seen@.contains((#[trigger] out@[a]).0),
            decreases i,
        {
            i = i - 1;
            let ghost old_seen = seen@;
            let ghost old_out = out@;
            let k = self.recs[i].0;
            proof {
                assert(ps[i as int].0 == k);
            }
            let already = key_seen(&seen, k);
            if !already {
                match &self.recs[i].1 {
                    Some(e) => {
                        out.push((k, e.duplicate()));
                        proof {
                            assert(ps[i as int].1 == Some(out@[out@.len() - 1].1@));
                        }
                    },
                    None => {},
                }
            }
            seen.push(k);
            proof {
                assert forall|k2: u128| #[trigger] seen@.contains(k2) implies exists|j: int|
                    (i as int) <= j < n && (#[trigger] ps[j]).0 == k2 by {
                    let a = choose|a: int| 0 <= a < seen@.len() && seen@[a] == k2;
                    if a == old_seen.len() {
                        assert(ps[i as int].0 == k2);
                    } else {
                        assert(old_seen[a] == k2);
                        assert(old_seen.contains(k2));
                        let j = choose|j: int|
                            (i as int) + 1 <= j < n && (#[trigger] ps[j]).0 == k2;
                        assert(ps[j].0 == k2);
                    }
                }
                assert forall|k2: u128| (exists|j: int|
                    (i as int) <= j < n && (#[trigger] ps[j]).0 == k2) implies seen@.contains(
                    k2,
                ) by {
                    let j = choose|j: int| (i as int) <= j < n && (#[trigger] ps[j]).0 == k2;
                    if j == i as int {
                        assert(seen@[seen@.len() - 1] == k);
                    } else {
                        assert(old_seen.contains(k2));
                        let a = choose|a: int| 0 <= a < old_seen.len() && old_seen[a] == k2;
                        assert(seen@[a] == k2);
                    }
                }
                // no later pair carries k when k was unseen
                if !already {
                    assert forall|j2: int| (i as int) < j2 < n implies (#[trigger] ps[j2]).0
                        != k by {
                        if ps[j2].0 == k {
                            assert(old_seen.contains(k));
                        }
                    }
                }
                assert forall|a: int| 0 <= a < out@.len() implies exists|j: int|
                    (i as int) <= j < n && (#[trigger] ps[j]).0 == (#[trigger] out@[a]).0 && ps[j].1
                        == Some(out@[a].1@) && (forall|j2: int|
                        j < j2 < n ==> (#[trigger] ps[j2]).0 != ps[j].0) by {
                    if a < old_out.len() {
                        assert(out@[a] == old_out[a]);
                        let j = choose|j: int|
                            (i as int) + 1 <= j < n && (#[trigger] ps[j]).0 == old_out[a].0 && ps[j].1 == Some(old_out[a].1@) && (forall|j2: int|
                                j < j2 < n ==> (#[trigger] ps[j2]).0 != ps[j].0);
                        assert((i as int) <= j < n && ps[j].0 == out@[a].0 && ps[j].1 == Some(
                            out@[a].1@,
                        ) && (forall|j2: int| j < j2 < n ==> (#[trigger] ps[j2]).0 != ps[j].0));
                    } else {
                        assert(out@[a].0 == k);
                        assert(ps[i as int].0 == out@[a].0 && ps[i as int].1 == Some(
                            out@[a].1@,
                        ) && (forall|j2: int|
                            (i as int) < j2 < n ==> (#[trigger] ps[j2]).0 != ps[i as int].0));
                    }
                }
                assert forall|j: int|
                    (i as int) <= j < n && (#[trigger] ps[j]).1 is Some && (forall|j2: int|
                        j < j2 < n ==> (#[trigger] ps[j2]).0 != ps[j].0) implies exists|a: int|
                    0 <= a < out@.len() && (#[trigger] out@[a]).0 == ps[j].0 by {
                    if j == i as int {
                        if already {
                            let j3 = choose|j3: int|
                                (i as int) + 1 <= j3 < n && (#[trigger] ps[j3]).0 == k;
                            assert(ps[j3].0 == ps[i as int].0);
                            assert(false);
                        } else {
                            assert(out@[out@.len() - 1].0 == k);
                        }
                    } else {
                        let a = choose|a: int|
                            0 <= a < old_out.len() && (#[trigger] old_out[a]).0 == ps[j].0;
                        assert(out@[a] == old_out[a]);
                    }
                }
                assert forall|a: int, b: int| 0 <= a < b < out@.len() implies (
                #[trigger] out@[a]).0 != (#[trigger] out@[b]).0 by {
                    if b == out@.len() - 1 && out@.len() > old_out.len() {
                        assert(out@[a] == old_out[a]);
                        assert(old_seen.contains(old_out[a].0));
                        if out@[b].0 == old_out[a].0 {
                            assert(old_seen.contains(k));
                            assert(false);
                        }
                    } else {
                        assert(out@[a] == old_out[a]);
                        assert(out@[b] == old_out[b]);
                    }
                }
                assert forall|a: int| 0 <= a < out@.len() implies seen@.contains(
                    (#[trigger] out@[a]).0,
                ) by {
                    if a < old_out.len() {
                        assert(out@[a] == old_out[a]);
                        assert(old_seen.contains(old_out[a].0));
                        let x = choose|x: int|
                            0 <= x < old_seen.len() && old_seen[x] == old_out[a].0;
                        assert(seen@[x] == out@[a].0);
                    } else {
                        assert(out@[a].0 == k);
                        assert(seen@[seen@.len() - 1] == k);
                    }
                }
            }
        }
        proof {
            let outp = out@.map_values(|p: (u128, CrawledEntry<V>)| (p.0, p.1@));
            assert(outp.len() == out@.len());
            assert forall|a: int| 0 <= a < outp.len() implies self.model().contains_key(
                (#[trigger] outp[a]).0,
            ) && self.model()[outp[a].0] == Some(outp[a].1) by {
                assert(outp[a] == (out@[a].0, out@[a].1@));
                let j = choose|j: int|
                    0 <= j < n && (#[trigger] ps[j]).0 == out@[a].0 && ps[j].1 == Some(out@[a].1@)
                        && (forall|j2: int| j < j2 < n ==> (#[trigger] ps[j2]).0 != ps[j].0);
                lemma_map_of_last_match(ps, j, ps[j].0);
            }
            assert forall|k: u128|
                self.model().contains_key(k) && self.model()[k] is Some implies exists|a: int|
                0 <= a < outp.len() && (#[trigger] outp[a]).0 == k by {
                lemma_map_of_contains(ps, k);
                let j = last_occurrence(ps, k);
                lemma_last_occurrence(ps, k);
                lemma_map_of_last_match(ps, j, k);
                let a = choose|a: int| 0 <= a < out@.len() && (#[trigger] out@[a]).0 == k;
                assert(outp[a] == (out@[a].0, out@[a].1@));
            }
            assert forall|a: int, b: int|
                0 <= a < b < outp.len() implies (#[trigger] outp[a]).0 != (
            #[trigger] outp[b]).0 by {
                assert(outp[a] == (out@[a].0, out@[a].1@));
                assert(outp[b] == (out@[b].0, out@[b].1@));
            }
        }
        out
    }
}

/// The greatest index whose pair carries the key.
pub closed spec fn last_occurrence<K, T>(s: Seq<(K, T)>, k: K) -> int
    decreases s.len(),
{
    if s.len() == 0 {
        -1
    } else if s.last().0 == k {
        s.len() - 1
    } else {
        last_occurrence(s.drop_last(), k)
    }
}

/// If some pair carries the key, `last_occurrence` names the last one.
pub proof fn lemma_last_occurrence<K, T>(s: Seq<(K, T)>, k: K)
    requires
        exists|i: int| 0 <= i < s.len() && (#[trigger] s[i]).0 == k,
    ensures
        0 <= last_occurrence(s, k) < s.len(),
        s[last_occurrence(s, k)].0 == k,
        forall|j: int| last_occurrence(s, k) < j < s.len() ==> (#[trigger] s[j]).0 != k,
    decreases s.len(),
{
    if s.last().0 == k {
    } else {
        let i = choose|i: int| 0 <= i < s.len() && (#[trigger] s[i]).0 == k;
        assert(s.drop_last()[i] == s[i]);
        lemma_last_occurrence(s.drop_last(), k);
        assert(forall|j: int|
            0 <= j < s.len() - 1 ==> (#[trigger] s[j]) == s.drop_last()[j]);
    }
}

} // verus!
