//! Association sequences.
//!
//! The library's in-memory containers hold their entries as vectors of
//! key-value pairs with pairwise-distinct keys. `map_of` reads such a
//! sequence as a `Map`, which is what the containers' contracts speak of;
//! the lemmas here connect the two readings.
use vstd::prelude::*;

verus! {

/// No two pairs share a key.
pub open spec fn keys_unique<K, T>(s: Seq<(K, T)>) -> bool {
    forall|i: int, j: int| 0 <= i < j < s.len() ==> (#[trigger] s[i]).0 != (#[trigger] s[j]).0
}

/// The map a sequence of pairs denotes; a later pair overrides an earlier
/// one with the same key.
pub open spec fn map_of<K, T>(s: Seq<(K, T)>) -> Map<K, T>
    decreases s.len(),
{
    if s.len() == 0 {
        Map::empty()
    } else {
        map_of(s.drop_last()).insert(s.last().0, s.last().1)
    }
}

/// A key is in the map exactly when some pair carries it.
pub proof fn lemma_map_of_contains<K, T>(s: Seq<(K, T)>, k: K)
    ensures
        map_of(s).contains_key(k) <==> exists|i: int| 0 <= i < s.len() && (#[trigger] s[i]).0 == k,
    decreases s.len(),
{
    if s.len() > 0 {
        lemma_map_of_contains(s.drop_last(), k);
        if map_of(s).contains_key(k) {
            if s.last().0 != k {
                let i = choose|i: int| 0 <= i < s.drop_last().len() && (#[trigger] s.drop_last()[i]).0 == k;
                assert(s[i].0 == k);
            }
        } else {
            assert(forall|i: int| 0 <= i < s.len() - 1 ==> (#[trigger] s[i]) == s.drop_last()[i]);
        }
    }
}

/// The map sends a key to the value of the key's last pair.
pub proof fn lemma_map_of_last_match<K, T>(s: Seq<(K, T)>, i: int, k: K)
    requires
        0 <= i < s.len(),
        s[i].0 == k,
        forall|j: int| i < j < s.len() ==> (#[trigger] s[j]).0 != k,
    ensures
        map_of(s).contains_key(k),
        map_of(s)[k] == s[i].1,
    decreases s.len(),
{
    if i == s.len() - 1 {
    } else {
        assert(s.last().0 != k);
        assert(s.drop_last()[i] == s[i]);
        assert(forall|j: int| i < j < s.len() - 1 ==> (#[trigger] s.drop_last()[j]) == s[j]);
        lemma_map_of_last_match(s.drop_last(), i, k);
    }
}

/// Appending a pair inserts its binding.
pub proof fn lemma_map_of_push<K, T>(s: Seq<(K, T)>, k: K, v: T)
    ensures
        map_of(s.push((k, v))) == map_of(s).insert(k, v),
{
    assert(s.push((k, v)).drop_last() =~= s);
}

/// The pairs of a `String` association vector as the spec sees them.
pub open spec fn str_pairs(s: Seq<(String, String)>) -> Seq<(Seq<char>, Seq<char>)> {
    s.map_values(|p: (String, String)| (p.0@, p.1@))
}

/// Relies on vstd's specification of `String` equality.
pub(crate) fn string_eq(a: &String, b: &String) -> (r: bool)
    ensures
        r == (a@ == b@),
{
    a.eq(b)
}

/// Look a key up in a `String` association vector, last pair winning.
pub fn assoc_get(entries: &Vec<(String, String)>, key: &str) -> (r: Option<String>)
    ensures
        r is Some <==> map_of(str_pairs(entries@)).contains_key(key@),
        r matches Some(v) ==> v@ == map_of(str_pairs(entries@))[key@],
{
    let k = key.to_owned();
    let mut i: usize = entries.len();
    while i > 0
        invariant
            i <= entries@.len(),
            forall|j: int|
                i <= j < str_pairs(entries@).len() ==> (#[trigger] str_pairs(entries@)[j]).0 != key@,
        decreases i,
    {
        i = i - 1;
        let hit = string_eq(&entries[i].0, &k);
        if hit {
            proof {
                lemma_map_of_last_match(str_pairs(entries@), i as int, key@);
            }
            return Some(entries[i].1.clone());
        }
    }
    proof {
        lemma_map_of_contains(str_pairs(entries@), key@);
    }
    None
}

} // verus!
