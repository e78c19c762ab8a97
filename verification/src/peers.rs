//! The peer registry.
//!
//! An eventually-consistent set of cooperating node addresses: idempotent
//! upsert keyed by address, no removal, no consistency promised beyond
//! each node's own accumulated union. Registration validates that an
//! address is an absolute http(s) URI and rejects anything else without
//! touching the set. At startup a node absorbs a bootstrap peer's list
//! together with its own address and announces itself to every absorbed
//! peer but itself — the host process performs the announcements.
use vstd::prelude::*;
use crate::assoc::string_eq;
use crate::query::Error;

verus! {

/// One cooperating node, known by its address.
pub struct Peer {
    pub address: String,
}

impl View for Peer {
    type V = Seq<char>;

    open spec fn view(&self) -> Seq<char> {
        self.address@
    }
}

/// Does the sequence start with the prefix?
pub open spec fn has_prefix(s: Seq<char>, p: Seq<char>) -> bool {
    s.len() >= p.len() && s.subrange(0, p.len() as int) == p
}

/// A well-formed peer address: an absolute http or https URI.
pub open spec fn valid_peer_address(s: Seq<char>) -> bool {
    has_prefix(s, "http://"@) || has_prefix(s, "https://"@)
}

/// Does a string start with the given prefix?
fn str_has_prefix(s: &str, p: &str) -> (b: bool)
    ensures
        b == has_prefix(s@, p@),
{
    let n = p.unicode_len();
    if s.unicode_len() < n {
        return false;
    }
    let mut i: usize = 0;
    while i < n
        invariant
            i <= n,
            forall|j: int| 0 <= j < i ==> s@[j] == p@[j],
        decreases n - i,
    {
        if s.get_char(i) != p.get_char(i) {
            proof {
                assert(s@.subrange(0, p@.len() as int)[i as int] != p@[i as int]);
            }
            return false;
        }
        i = i + 1;
    }
    proof {
        assert(s@.subrange(0, p@.len() as int) =~= p@);
    }
    true
}

/// Is this an absolute http(s) URI?
pub fn valid_address(s: &str) -> (b: bool)
    ensures
        b == valid_peer_address(s@),
{
    str_has_prefix(s, "http://") || str_has_prefix(s, "https://")
}

/// A set insertion: the address is appended only when it is new.
pub open spec fn set_insert(s: Seq<Seq<char>>, a: Seq<char>) -> Seq<Seq<char>> {
    if s.contains(a) {
        s
    } else {
        s.push(a)
    }
}

/// Inserting a present address changes nothing, so upserts are idempotent.
pub proof fn lemma_set_insert_idempotent(s: Seq<Seq<char>>, a: Seq<char>)
    ensures
        set_insert(set_insert(s, a), a) == set_insert(s, a),
{
    if !s.contains(a) {
        assert(s.push(a)[s.len() as int] == a);
    }
}

/// The first `n` of a fetched peer list absorbed in order.
pub open spec fn absorb_fold(s: Seq<Seq<char>>, list: Seq<Seq<char>>, n: int) -> Seq<Seq<char>>
    decreases n,
{
    if n <= 0 {
        s
    } else {
        set_insert(absorb_fold(s, list, n - 1), list[n - 1])
    }
}

/// The addresses of the first `n` fetched peers that are not this node's
/// own, kept in order with repetition — the announcement plan.
pub open spec fn announce_spec(list: Seq<Seq<char>>, own: Seq<char>, n: int) -> Seq<Seq<char>>
    decreases n,
{
    if n <= 0 {
        Seq::<Seq<char>>::empty()
    } else {
        let pre = announce_spec(list, own, n - 1);
        if list[n - 1] == own {
            pre
        } else {
            pre.push(list[n - 1])
        }
    }
}

/// The local registry: the addresses this node has accumulated, in the
/// order first seen and without repetition.
pub struct PeerRegistry {
    peers: Vec<String>,
}

impl View for PeerRegistry {
    type V = Seq<Seq<char>>;

    closed spec fn view(&self) -> Seq<Seq<char>> {
        self.peers@.map_values(|s: String| s@)
    }
}

impl PeerRegistry {
    /// No address is recorded twice.
    pub open spec fn wf(&self) -> bool {
        forall|i: int, j: int| 0 <= i < j < self@.len() ==> self@[i] != self@[j]
    }

    /// An empty registry.
    pub fn new() -> (r: PeerRegistry)
        ensures
            r.wf(),
            r@ == Seq::<Seq<char>>::empty(),
    {
        let r = PeerRegistry { peers: Vec::new() };
        proof {
            assert(r@ =~= Seq::<Seq<char>>::empty());
        }
        r
    }

    /// Is an address recorded?
    fn contains_address(&self, address: &String) -> (b: bool)
        ensures
            b == self@.contains(address@),
    {
        let mut i: usize = 0;
        while i < self.peers.len()
            invariant
                i <= self.peers@.len(),
                forall|j: int| 0 <= j < i ==> self@[j] != address@,
            decreases self.peers@.len() - i,
        {
            let hit = string_eq(&self.peers[i], address);
            if hit {
                proof {
                    assert(self@[i as int] == address@);
                }
                return true;
            }
            i = i + 1;
        }
        false
    }

    /// Record an address that is already known to be acceptable.
    fn upsert(&mut self, address: &String)
        requires
            old(self).wf(),
        ensures
            final(self).wf(),
            final(self)@ == set_insert(old(self)@, address@),
    {
        let present = self.contains_address(address);
        if !present {
            let ghost pre = self@;
            self.peers.push(address.clone());
            proof {
                assert(self@ =~= pre.push(address@));
                assert forall|i: int, j: int| 0 <= i < j < self@.len() implies self@[i]
                    != self@[j] by {
                    if j == self@.len() - 1 {
                        assert(self@[i] == pre[i]);
                        assert(!pre.contains(address@));
                    }
                }
            }
        }
    }

    /// Handle a registration: reject an address that is not an absolute
    /// http(s) URI with a client error and no change; upsert anything else
    /// idempotently and echo the peer back.
    pub fn register(&mut self, address: &String) -> (r: Result<Peer, Error>)
        requires
            old(self).wf(),
        ensures
            final(self).wf(),
            !valid_peer_address(address@) ==> (r matches Err(e) && e is BadRequest && *final(self)
                == *old(self)),
            valid_peer_address(address@) ==> (r matches Ok(p) && p@ == address@ && final(self)@
                == set_insert(old(self)@, address@)),
    {
        if !valid_address(address.as_str()) {
            return Err(Error::BadRequest);
        }
        self.upsert(address);
        Ok(Peer { address: address.clone() })
    }

    /// Handle an update the same way as a registration: the upsert is
    /// idempotent, so create and update coincide.
    pub fn update_peer(&mut self, address: &String) -> (r: Result<Peer, Error>)
        requires
            old(self).wf(),
        ensures
            final(self).wf(),
            !valid_peer_address(address@) ==> (r matches Err(e) && e is BadRequest && *final(self)
                == *old(self)),
            valid_peer_address(address@) ==> (r matches Ok(p) && p@ == address@ && final(self)@
                == set_insert(old(self)@, address@)),
    {
        self.register(address)
    }

    /// Look a peer up by address; not found is an error.
    pub fn get_peer(&self, address: &String) -> (r: Result<Peer, Error>)
        ensures
            self@.contains(address@) ==> (r matches Ok(p) && p@ == address@),
            !self@.contains(address@) ==> (r matches Err(e) && e is NotFound),
    {
        let present = self.contains_address(address);
        if present {
            Ok(Peer { address: address.clone() })
        } else {
            Err(Error::NotFound)
        }
    }

    /// The current local snapshot.
    pub fn list_peers(&self) -> (r: Vec<Peer>)
        ensures
            r@.map_values(|p: Peer| p@) == self@,
    {
        let mut out: Vec<Peer> = Vec::new();
        let mut i: usize = 0;
        while i < self.peers.len()
            invariant
                i <= self.peers@.len(),
                out@.len() == i as nat,
                forall|j: int| 0 <= j < i ==> (#[trigger] out@[j])@ == self@[j],
            decreases self.peers@.len() - i,
        {
            out.push(Peer { address: self.peers[i].clone() });
            i = i + 1;
        }
        proof {
            assert(out@.map_values(|p: Peer| p@) =~= self@);
        }
        out
    }

    /// Absorb a bootstrap peer's list together with this node's own
    /// address, and plan the announcements: every fetched peer but this
    /// node itself, in order.
    pub fn absorb(&mut self, fetched: &Vec<Peer>, own: &String) -> (announce: Vec<Peer>)
        requires
            old(self).wf(),
        ensures
            final(self).wf(),
            final(self)@ == set_insert(
                absorb_fold(old(self)@, fetched@.map_values(|p: Peer| p@), fetched@.len() as int),
                own@,
            ),
            announce@.map_values(|p: Peer| p@) == announce_spec(
                fetched@.map_values(|p: Peer| p@),
                own@,
                fetched@.len() as int,
            ),
    {
        let ghost fl = fetched@.map_values(|p: Peer| p@);
        let mut announce: Vec<Peer> = Vec::new();
        let mut i: usize = 0;
        while i < fetched.len()
            invariant
                i <= fetched@.len(),
                self.wf(),
                self@ == absorb_fold(old(self)@, fl, i as int),
                announce@.map_values(|p: Peer| p@) == announce_spec(fl, own@, i as int),
            decreases fetched@.len() - i,
        {
            let ghost pre_announce = announce@.map_values(|p: Peer| p@);
            let p = &fetched[i];
            self.upsert(&p.address);
            let same = string_eq(&p.address, own);
            if !same {
                announce.push(Peer { address: p.address.clone() });
                proof {
                    assert(announce@.map_values(|q: Peer| q@) =~= pre_announce.push(fl[i as int]));
                }
            }
            i = i + 1;
        }
        self.upsert(own);
        announce
    }
}

} // verus!
