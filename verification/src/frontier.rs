//! The crawl frontier.
//!
//! A bounded-depth, deduplicating frontier over one crawl session. A URL
//! moves Unvisited → Enqueued → Fetching → Scraped or Failed, is fetched at
//! most once, and records every page that linked to it. Links found on a
//! scraped page are resolved against the page's final (post-redirect) URL
//! and enqueued only when the child is within the depth bound, its host is
//! not blocklisted, and it is not already known. The host process performs
//! the fetches; every decision stands here.
use vstd::prelude::*;
use crate::assoc::{lemma_map_of_contains, lemma_map_of_last_match, lemma_map_of_push, map_of,
    string_eq};
use crate::table::opt_model;

verus! {

/// What `url::Url::join` (after parsing the base) returns: the reference
/// resolved against the base, a function of the two strings alone; absence
/// when either does not parse.
pub uninterp spec fn joined_of(base: Seq<char>, href: Seq<char>) -> Option<Seq<char>>;

/// Relies on `url::Url::parse` and `url::Url::join`.
#[verifier::external_body]
pub(crate) fn join_url(base: &str, href: &str) -> (r: Option<String>)
    ensures
        opt_model(r) == joined_of(base@, href@),
{
    match url::Url::parse(base) {
        Ok(b) => match b.join(href) {
            Ok(u) => Some(String::from(u)),
            Err(_) => None,
        },
        Err(_) => None,
    }
}

/// What `url::Url::host_str` (after parsing) returns: the URL's host, a
/// function of the string alone; absence when there is no host or the URL
/// does not parse.
pub uninterp spec fn host_of(url: Seq<char>) -> Option<Seq<char>>;

/// Relies on `url::Url::parse` and `url::Url::host_str`.
#[verifier::external_body]
pub(crate) fn host_of_url(u: &str) -> (r: Option<String>)
    ensures
        opt_model(r) == host_of(u@),
{
    match url::Url::parse(u) {
        Ok(p) => p.host_str().map(String::from),
        Err(_) => None,
    }
}

/// The per-URL crawl state.
#[derive(Clone, Copy)]
pub enum PageState {
    /// Discovered and waiting to be fetched.
    Enqueued,
    /// Handed out for fetching.
    Fetching,
    /// Fetched and parsed; its links were processed.
    Scraped,
    /// Fetch or parse failed; dropped with no output and no links.
    Failed,
}

/// The frontier as the spec sees it.
#[verifier::ext_equal]
pub struct FrontierModel {
    /// Every known URL with its state and discovery depth.
    pub pages: Map<Seq<char>, (PageState, nat)>,
    /// For each discovered URL, the pages that linked to it, in discovery
    /// order and without repetition.
    pub refs: Map<Seq<char>, Seq<Seq<char>>>,
    /// The URLs waiting to be fetched, oldest first.
    pub queue: Seq<Seq<char>>,
}

/// Is this URL's host on the blocklist? A URL without a host is not.
pub open spec fn blocked_spec(blocklist: Seq<Seq<char>>, u: Seq<char>) -> bool {
    match host_of(u) {
        Some(h) => blocklist.contains(h),
        None => false,
    }
}

/// One referrer recorded against a child, once.
pub open spec fn add_ref_spec(
    refs: Map<Seq<char>, Seq<Seq<char>>>,
    child: Seq<char>,
    origin: Seq<char>,
) -> Map<Seq<char>, Seq<Seq<char>>> {
    let cur = if refs.contains_key(child) {
        refs[child]
    } else {
        Seq::<Seq<char>>::empty()
    };
    if cur.contains(origin) {
        refs
    } else {
        refs.insert(child, cur.push(origin))
    }
}

/// One link processed: resolve it against the scraped page's final URL;
/// drop it beyond the depth bound or with a blocklisted host; otherwise
/// record the referrer and, for a URL not yet known, enqueue it one level
/// deeper.
pub open spec fn link_step(
    m: FrontierModel,
    blocklist: Seq<Seq<char>>,
    max_depth: nat,
    origin: Seq<char>,
    depth: nat,
    href: Seq<char>,
) -> FrontierModel {
    match joined_of(origin, href) {
        None => m,
        Some(child) => {
            if depth + 1 > max_depth || blocked_spec(blocklist, child) {
                m
            } else {
                let refs2 = add_ref_spec(m.refs, child, origin);
                if m.pages.contains_key(child) {
                    FrontierModel { refs: refs2, ..m }
                } else {
                    FrontierModel {
                        pages: m.pages.insert(child, (PageState::Enqueued, (depth + 1) as nat)),
                        refs: refs2,
                        queue: m.queue.push(child),
                    }
                }
            }
        },
    }
}

/// The first `n` links of a scraped page processed in order.
pub open spec fn links_fold(
    m: FrontierModel,
    blocklist: Seq<Seq<char>>,
    max_depth: nat,
    origin: Seq<char>,
    depth: nat,
    hrefs: Seq<Seq<char>>,
    n: int,
) -> FrontierModel
    decreases n,
{
    if n <= 0 {
        m
    } else {
        link_step(
            links_fold(m, blocklist, max_depth, origin, depth, hrefs, n - 1),
            blocklist,
            max_depth,
            origin,
            depth,
            hrefs[n - 1],
        )
    }
}

/// Every queued URL is known, waiting and within bounds; queued URLs
/// never repeat; every waiting URL is queued; no known URL lies beyond the
/// depth bound.
pub open spec fn model_wf(m: FrontierModel, max_depth: nat) -> bool {
    &&& forall|i: int, j: int| 0 <= i < j < m.queue.len() ==> m.queue[i] != m.queue[j]
    &&& forall|i: int|
        0 <= i < m.queue.len() ==> m.pages.contains_key(#[trigger] m.queue[i])
            && m.pages[m.queue[i]].0 is Enqueued
    &&& forall|u: Seq<char>|
        m.pages.contains_key(u) && (#[trigger] m.pages[u]).0 is Enqueued ==> m.queue.contains(u)
    &&& forall|u: Seq<char>| m.pages.contains_key(u) ==> (#[trigger] m.pages[u]).1 <= max_depth
}

/// One step keeps a frontier well formed.
pub proof fn lemma_link_step_wf(
    m: FrontierModel,
    blocklist: Seq<Seq<char>>,
    max_depth: nat,
    origin: Seq<char>,
    depth: nat,
    href: Seq<char>,
)
    requires
        model_wf(m, max_depth),
    ensures
        model_wf(link_step(m, blocklist, max_depth, origin, depth, href), max_depth),
{
    let m2 = link_step(m, blocklist, max_depth, origin, depth, href);
    match joined_of(origin, href) {
        None => {},
        Some(child) => {
            if depth + 1 > max_depth || blocked_spec(blocklist, child) {
            } else if m.pages.contains_key(child) {
            } else {
                assert forall|i: int, j: int| 0 <= i < j < m2.queue.len() implies m2.queue[i]
                    != m2.queue[j] by {
                    if j == m2.queue.len() - 1 {
                        assert(m2.queue[i] == m.queue[i]);
                        if m.queue[i] == child {
                            assert(m.pages.contains_key(child));
                        }
                    }
                }
                assert forall|i: int|
                    0 <= i < m2.queue.len() implies m2.pages.contains_key(
                    #[trigger] m2.queue[i],
                ) && m2.pages[m2.queue[i]].0 is Enqueued by {
                    if i < m.queue.len() {
                        assert(m2.queue[i] == m.queue[i]);
                        assert(m.queue[i] != child);
                    } else {
                        assert(m2.queue[i] == child);
                    }
                }
                assert forall|u: Seq<char>|
                    m2.pages.contains_key(u) && (#[trigger] m2.pages[u]).0 is Enqueued
                    implies m2.queue.contains(u) by {
                    if u == child {
                        assert(m2.queue[m2.queue.len() - 1] == child);
                    } else {
                        assert(m.queue.contains(u));
                        let i = choose|i: int| 0 <= i < m.queue.len() && m.queue[i] == u;
                        assert(m2.queue[i] == u);
                    }
                }
            }
        },
    }
}

/// Processing links keeps a frontier well formed.
pub proof fn lemma_links_fold_wf(
    m: FrontierModel,
    blocklist: Seq<Seq<char>>,
    max_depth: nat,
    origin: Seq<char>,
    depth: nat,
    hrefs: Seq<Seq<char>>,
    n: int,
)
    requires
        model_wf(m, max_depth),
    ensures
        model_wf(links_fold(m, blocklist, max_depth, origin, depth, hrefs, n), max_depth),
    decreases n,
{
    if n > 0 {
        lemma_links_fold_wf(m, blocklist, max_depth, origin, depth, hrefs, n - 1);
        lemma_link_step_wf(
            links_fold(m, blocklist, max_depth, origin, depth, hrefs, n - 1),
            blocklist,
            max_depth,
            origin,
            depth,
            hrefs[n - 1],
        );
    }
}

/// Depth and blocklist law: whatever processing links makes newly known
/// was reached by one link from the scraped page — it sits one level below
/// it, within the depth bound, and its host is not blocklisted. Links to
/// blocklisted hosts and links beyond the depth bound are never enqueued.
pub proof fn lemma_links_fold_new_pages(
    m: FrontierModel,
    blocklist: Seq<Seq<char>>,
    max_depth: nat,
    origin: Seq<char>,
    depth: nat,
    hrefs: Seq<Seq<char>>,
    n: int,
)
    ensures
        forall|c: Seq<char>|
            links_fold(m, blocklist, max_depth, origin, depth, hrefs, n).pages.contains_key(c)
                && !m.pages.contains_key(c) ==> !blocked_spec(blocklist, c) && links_fold(
                m,
                blocklist,
                max_depth,
                origin,
                depth,
                hrefs,
                n,
            ).pages[c] == (PageState::Enqueued, (depth + 1) as nat) && depth + 1 <= max_depth,
    decreases n,
{
    if n > 0 {
        lemma_links_fold_new_pages(m, blocklist, max_depth, origin, depth, hrefs, n - 1);
    }
}

/// Dedup law: processing links leaves the old queue as a prefix and only
/// ever appends URLs that were not known before — a URL already known is
/// never enqueued again, so no URL is fetched twice.
pub proof fn lemma_links_fold_no_requeue(
    m: FrontierModel,
    blocklist: Seq<Seq<char>>,
    max_depth: nat,
    origin: Seq<char>,
    depth: nat,
    hrefs: Seq<Seq<char>>,
    n: int,
)
    ensures
        m.queue.len() <= links_fold(m, blocklist, max_depth, origin, depth, hrefs, n).queue.len(),
        links_fold(m, blocklist, max_depth, origin, depth, hrefs, n).queue.take(m.queue.len() as int)
            == m.queue,
        forall|i: int|
            m.queue.len() <= i < links_fold(
                m,
                blocklist,
                max_depth,
                origin,
                depth,
                hrefs,
                n,
            ).queue.len() ==> !m.pages.contains_key(
                #[trigger] links_fold(m, blocklist, max_depth, origin, depth, hrefs, n).queue[i],
            ),
    decreases n,
{
    let mp = links_fold(m, blocklist, max_depth, origin, depth, hrefs, n);
    if n > 0 {
        let mq = links_fold(m, blocklist, max_depth, origin, depth, hrefs, n - 1);
        lemma_links_fold_no_requeue(m, blocklist, max_depth, origin, depth, hrefs, n - 1);
        lemma_links_fold_pages_grow(m, blocklist, max_depth, origin, depth, hrefs, n - 1);
        assert(mq.queue.take(m.queue.len() as int) == m.queue);
        assert forall|t: int| 0 <= t < m.queue.len() implies mp.queue[t] == m.queue[t] by {
            assert(mq.queue.take(m.queue.len() as int)[t] == m.queue[t]);
        }
        assert(mp.queue.take(m.queue.len() as int) =~= m.queue);
    } else {
        assert(mp.queue.take(m.queue.len() as int) =~= m.queue);
    }
}

/// What is known only grows while links are processed.
pub proof fn lemma_links_fold_pages_grow(
    m: FrontierModel,
    blocklist: Seq<Seq<char>>,
    max_depth: nat,
    origin: Seq<char>,
    depth: nat,
    hrefs: Seq<Seq<char>>,
    n: int,
)
    ensures
        forall|c: Seq<char>|
            #[trigger] m.pages.contains_key(c) ==> links_fold(
                m,
                blocklist,
                max_depth,
                origin,
                depth,
                hrefs,
                n,
            ).pages.contains_key(c),
    decreases n,
{
    if n > 0 {
        lemma_links_fold_pages_grow(m, blocklist, max_depth, origin, depth, hrefs, n - 1);
    }
}

/// Referrer law, first half: a recorded referrer is never lost.
pub proof fn lemma_links_fold_refs_grow(
    m: FrontierModel,
    blocklist: Seq<Seq<char>>,
    max_depth: nat,
    origin: Seq<char>,
    depth: nat,
    hrefs: Seq<Seq<char>>,
    n: int,
    c: Seq<char>,
    r: Seq<char>,
)
    requires
        m.refs.contains_key(c),
        m.refs[c].contains(r),
    ensures
        links_fold(m, blocklist, max_depth, origin, depth, hrefs, n).refs.contains_key(c),
        links_fold(m, blocklist, max_depth, origin, depth, hrefs, n).refs[c].contains(r),
    decreases n,
{
    if n > 0 {
        lemma_links_fold_refs_grow(m, blocklist, max_depth, origin, depth, hrefs, n - 1, c, r);
        let mq = links_fold(m, blocklist, max_depth, origin, depth, hrefs, n - 1);
        let i = choose|i: int| 0 <= i < mq.refs[c].len() && mq.refs[c][i] == r;
        let m2 = link_step(mq, blocklist, max_depth, origin, depth, hrefs[n - 1]);
        assert(m2.refs[c][i] == r);
    }
}

/// Referrer law, second half: an accepted link records the scraped page
/// against the child it points to.
pub proof fn lemma_links_fold_records_referrer(
    m: FrontierModel,
    blocklist: Seq<Seq<char>>,
    max_depth: nat,
    origin: Seq<char>,
    depth: nat,
    hrefs: Seq<Seq<char>>,
    n: int,
    i: int,
)
    requires
        0 <= i < n,
        joined_of(origin, hrefs[i]) is Some,
        depth + 1 <= max_depth,
        !blocked_spec(blocklist, joined_of(origin, hrefs[i]).unwrap()),
    ensures
        links_fold(m, blocklist, max_depth, origin, depth, hrefs, n).refs.contains_key(
            joined_of(origin, hrefs[i]).unwrap(),
        ),
        links_fold(m, blocklist, max_depth, origin, depth, hrefs, n).refs[joined_of(
            origin,
            hrefs[i],
        ).unwrap()].contains(origin),
    decreases n,
{
    let c = joined_of(origin, hrefs[i]).unwrap();
    if i == n - 1 {
        let mq = links_fold(m, blocklist, max_depth, origin, depth, hrefs, n - 1);
        let cur = if mq.refs.contains_key(c) {
            mq.refs[c]
        } else {
            Seq::<Seq<char>>::empty()
        };
        if cur.contains(origin) {
            let a = choose|a: int| 0 <= a < cur.len() && cur[a] == origin;
            assert(mq.refs.contains_key(c));
        } else {
            assert(add_ref_spec(mq.refs, c, origin)[c][cur.len() as int] == origin);
        }
    } else {
        lemma_links_fold_records_referrer(m, blocklist, max_depth, origin, depth, hrefs, n - 1, i);
        let mq = links_fold(m, blocklist, max_depth, origin, depth, hrefs, n - 1);
        let a = choose|a: int| 0 <= a < mq.refs[c].len() && mq.refs[c][a] == origin;
        let m2 = link_step(mq, blocklist, max_depth, origin, depth, hrefs[n - 1]);
        assert(m2.refs[c][a] == origin);
    }
}

/// The crawl frontier of one session.
pub struct Frontier {
    max_depth: usize,
    blocked: Vec<String>,
    pages: Vec<(String, (PageState, usize))>,
    refs: Vec<(String, Vec<String>)>,
    queue: Vec<String>,
}

impl View for Frontier {
    type V = FrontierModel;

    closed spec fn view(&self) -> FrontierModel {
        FrontierModel {
            pages: map_of(
                self.pages@.map_values(
                    |p: (String, (PageState, usize))| (p.0@, (p.1.0, p.1.1 as nat)),
                ),
            ),
            refs: map_of(
                self.refs@.map_values(
                    |p: (String, Vec<String>)| (p.0@, p.1@.map_values(|s: String| s@)),
                ),
            ),
            queue: self.queue@.map_values(|s: String| s@),
        }
    }
}

impl Frontier {
    /// The pages pairs as the spec sees them.
    pub closed spec fn page_pairs(&self) -> Seq<(Seq<char>, (PageState, nat))> {
        self.pages@.map_values(|p: (String, (PageState, usize))| (p.0@, (p.1.0, p.1.1 as nat)))
    }

    /// The referrer pairs as the spec sees them.
    pub closed spec fn ref_pairs(&self) -> Seq<(Seq<char>, Seq<Seq<char>>)> {
        self.refs@.map_values(|p: (String, Vec<String>)| (p.0@, p.1@.map_values(|s: String| s@)))
    }

    /// The configured depth bound.
    pub closed spec fn depth_bound(&self) -> nat {
        self.max_depth as nat
    }

    /// The configured blocklist of hosts.
    pub closed spec fn blocklist(&self) -> Seq<Seq<char>> {
        self.blocked@.map_values(|s: String| s@)
    }

    /// Every queued URL is known, waiting and within bounds; queued URLs
    /// never repeat; every waiting URL is queued; no known URL lies beyond
    /// the depth bound.
    pub open spec fn wf(&self) -> bool {
        model_wf(self@, self.depth_bound())
    }

    /// A fresh frontier: a depth bound, a host blocklist, nothing known.
    pub fn new(max_depth: usize, blocked: Vec<String>) -> (r: Frontier)
        ensures
            r.wf(),
            r@.pages == Map::<Seq<char>, (PageState, nat)>::empty(),
            r@.refs == Map::<Seq<char>, Seq<Seq<char>>>::empty(),
            r@.queue == Seq::<Seq<char>>::empty(),
            r.depth_bound() == max_depth as nat,
            r.blocklist() == blocked@.map_values(|s: String| s@),
    {
        let r = Frontier {
            max_depth,
            blocked,
            pages: Vec::new(),
            refs: Vec::new(),
            queue: Vec::new(),
        };
        proof {
            assert(r.page_pairs() =~= Seq::<(Seq<char>, (PageState, nat))>::empty());
            assert(r.ref_pairs() =~= Seq::<(Seq<char>, Seq<Seq<char>>)>::empty());
            assert(r@.pages =~= Map::<Seq<char>, (PageState, nat)>::empty());
            assert(r@.refs =~= Map::<Seq<char>, Seq<Seq<char>>>::empty());
            assert(r@.queue =~= Seq::<Seq<char>>::empty());
        }
        r
    }

    /// Look a URL up among the known pages.
    fn page_lookup(&self, u: &String) -> (r: Option<(PageState, usize)>)
        ensures
            r is Some <==> self@.pages.contains_key(u@),
            r matches Some(info) ==> self@.pages[u@] == (info.0, info.1 as nat),
    {
        let mut i: usize = self.pages.len();
        while i > 0
            invariant
                i <= self.pages@.len(),
                forall|j: int|
                    i <= j < self.page_pairs().len() ==> (#[trigger] self.page_pairs()[j]).0 != u@,
            decreases i,
        {
            i = i - 1;
            let hit = string_eq(&self.pages[i].0, u);
            if hit {
                proof {
                    lemma_map_of_last_match(self.page_pairs(), i as int, u@);
                }
                return Some(self.pages[i].1);
            }
        }
        proof {
            lemma_map_of_contains(self.page_pairs(), u@);
        }
        None
    }

    /// Enqueue a seed at depth zero; a URL already known in this session is
    /// left as it is.
    pub fn visit(&mut self, url: &String)
        requires
            old(self).wf(),
        ensures
            final(self).wf(),
            final(self).depth_bound() == old(self).depth_bound(),
            final(self).blocklist() == old(self).blocklist(),
            final(self)@.refs == old(self)@.refs,
            old(self)@.pages.contains_key(url@) ==> *final(self) == *old(self),
            !old(self)@.pages.contains_key(url@) ==> final(self)@.pages == old(
                self,
            )@.pages.insert(url@, (PageState::Enqueued, 0nat)) && final(self)@.queue == old(
                self,
            )@.queue.push(url@),
    {
        match self.page_lookup(url) {
            Some(_) => {},
            None => {
                let ghost pre_pages = self.page_pairs();
                proof {
                    lemma_map_of_push(pre_pages, url@, (PageState::Enqueued, 0nat));
                }
                self.pages.push((url.clone(), (PageState::Enqueued, 0)));
                self.queue.push(url.clone());
                proof {
                    assert(self.page_pairs() =~= pre_pages.push((url@, (PageState::Enqueued, 0nat))));
                    assert(self@.queue =~= old(self)@.queue.push(url@));
                    assert(self.ref_pairs() =~= old(self).ref_pairs());
                    let m = self@;
                    let m0 = old(self)@;
                    assert forall|i: int|
                        0 <= i < m.queue.len() implies m.pages.contains_key(#[trigger] m.queue[i])
                        && m.pages[m.queue[i]].0 is Enqueued by {
                        if i < m0.queue.len() {
                            assert(m.queue[i] == m0.queue[i]);
                        } else {
                            assert(m.queue[i] == url@);
                        }
                    }
                    assert forall|u: Seq<char>|
                        m.pages.contains_key(u) && (#[trigger] m.pages[u]).0 is Enqueued
                        implies m.queue.contains(u) by {
                        if u == url@ {
                            assert(m.queue[m.queue.len() - 1] == url@);
                        } else {
                            assert(m0.queue.contains(u));
                            let i = choose|i: int| 0 <= i < m0.queue.len() && m0.queue[i] == u;
                            assert(m.queue[i] == u);
                        }
                    }
                    assert forall|i: int, j: int| 0 <= i < j < m.queue.len() implies m.queue[i]
                        != m.queue[j] by {
                        if j == m.queue.len() - 1 {
                            assert(m.queue[i] == m0.queue[i]);
                            if m0.queue[i] == url@ {
                                assert(m0.pages.contains_key(url@));
                            }
                        }
                    }
                }
            },
        }
    }

    /// Hand out the oldest waiting URL and mark it fetching; nothing when
    /// the queue is empty.
    pub fn next_to_fetch(&mut self) -> (r: Option<(String, usize)>)
        requires
            old(self).wf(),
        ensures
            final(self).wf(),
            final(self).depth_bound() == old(self).depth_bound(),
            final(self).blocklist() == old(self).blocklist(),
            final(self)@.refs == old(self)@.refs,
            old(self)@.queue.len() == 0 ==> r is None && *final(self) == *old(self),
            old(self)@.queue.len() > 0 ==> (r matches Some(p) && p.0@ == old(self)@.queue[0]
                && final(self)@.queue == old(self)@.queue.drop_first() && final(self)@.pages == old(
                self,
            )@.pages.insert(p.0@, (PageState::Fetching, p.1 as nat)) && old(self)@.pages[p.0@].1
                == p.1 as nat),
    {
        if self.queue.len() == 0 {
            proof {
                assert(self@.queue.len() == 0);
            }
            return None;
        }
        let u = self.queue.remove(0);
        proof {
            assert(self@.queue =~= old(self)@.queue.drop_first());
            assert(old(self)@.queue[0] == u@);
            assert(old(self)@.pages.contains_key(u@));
        }
        let info = match self.page_lookup(&u) {
            Some(info) => info,
            None => {
                proof {
                    assert(false);
                }
                (PageState::Enqueued, 0)
            },
        };
        let depth = info.1;
        let ghost pre_pages = self.page_pairs();
        proof {
            lemma_map_of_push(pre_pages, u@, (PageState::Fetching, depth as nat));
        }
        self.pages.push((u.clone(), (PageState::Fetching, depth)));
        proof {
            assert(self.page_pairs() =~= pre_pages.push((u@, (PageState::Fetching, depth as nat))));
            assert(self.ref_pairs() =~= old(self).ref_pairs());
            let m = self@;
            let m0 = old(self)@;
            assert forall|i: int|
                0 <= i < m.queue.len() implies m.pages.contains_key(#[trigger] m.queue[i])
                && m.pages[m.queue[i]].0 is Enqueued by {
                assert(m.queue[i] == m0.queue[i + 1]);
                assert(m0.queue[i + 1] != m0.queue[0]);
            }
            assert forall|u2: Seq<char>|
                m.pages.contains_key(u2) && (#[trigger] m.pages[u2]).0 is Enqueued
                implies m.queue.contains(u2) by {
                assert(u2 != u@);
                assert(m0.pages.contains_key(u2) && m0.pages[u2].0 is Enqueued);
                assert(m0.queue.contains(u2));
                let i = choose|i: int| 0 <= i < m0.queue.len() && m0.queue[i] == u2;
                assert(i != 0);
                assert(m.queue[i - 1] == u2);
            }
        }
        Some((u, depth))
    }

    /// A URL's state and discovery depth, if it is known.
    pub fn page_status(&self, url: &String) -> (r: Option<(PageState, usize)>)
        ensures
            r is Some <==> self@.pages.contains_key(url@),
            r matches Some(info) ==> self@.pages[url@] == (info.0, info.1 as nat),
    {
        self.page_lookup(url)
    }

    /// The referrers recorded against a URL, in discovery order; empty for
    /// a URL nothing linked to.
    pub fn referrers_of(&self, url: &String) -> (r: Vec<String>)
        ensures
            self@.refs.contains_key(url@) ==> r@.map_values(|s: String| s@) == self@.refs[url@],
            !self@.refs.contains_key(url@) ==> r@.len() == 0,
    {
        match self.ref_list(url) {
            Some(l) => l,
            None => Vec::new(),
        }
    }

    /// Is a host on the blocklist?
    fn host_blocked(&self, u: &String) -> (b: bool)
        ensures
            b == blocked_spec(self.blocklist(), u@),
    {
        match host_of_url(u.as_str()) {
            Some(h) => contains_string(&self.blocked, &h),
            None => false,
        }
    }

    /// The referrers recorded so far against a URL.
    fn ref_list(&self, child: &String) -> (r: Option<Vec<String>>)
        ensures
            r is Some <==> self@.refs.contains_key(child@),
            r matches Some(l) ==> l@.map_values(|s: String| s@) == self@.refs[child@],
    {
        let mut i: usize = self.refs.len();
        while i > 0
            invariant
                i <= self.refs@.len(),
                forall|j: int|
                    i <= j < self.ref_pairs().len() ==> (#[trigger] self.ref_pairs()[j]).0
                        != child@,
            decreases i,
        {
            i = i - 1;
            let hit = string_eq(&self.refs[i].0, child);
            if hit {
                proof {
                    lemma_map_of_last_match(self.ref_pairs(), i as int, child@);
                }
                return Some(duplicate_strings(&self.refs[i].1));
            }
        }
        proof {
            lemma_map_of_contains(self.ref_pairs(), child@);
        }
        None
    }

    /// Record one referrer against a child, once.
    fn add_referrer(&mut self, child: &String, origin: &String)
        ensures
            final(self)@.refs == add_ref_spec(old(self)@.refs, child@, origin@),
            final(self)@.pages == old(self)@.pages,
            final(self)@.queue == old(self)@.queue,
            final(self).page_pairs() == old(self).page_pairs(),
            final(self).depth_bound() == old(self).depth_bound(),
            final(self).blocklist() == old(self).blocklist(),
    {
        let cur: Vec<String> = match self.ref_list(child) {
            Some(l) => l,
            None => Vec::new(),
        };
        proof {
            if !old(self)@.refs.contains_key(child@) {
                assert(cur@.map_values(|s: String| s@) =~= Seq::<Seq<char>>::empty());
            }
        }
        let present = contains_string(&cur, origin);
        if !present {
            let mut nl = cur;
            nl.push(origin.clone());
            let ghost pre = self.ref_pairs();
            let ghost nlv = nl@.map_values(|s: String| s@);
            proof {
                lemma_map_of_push(pre, child@, nlv);
            }
            self.refs.push((child.clone(), nl));
            proof {
                assert(self.ref_pairs() =~= pre.push((child@, nlv)));
                let cv = if old(self)@.refs.contains_key(child@) {
                    old(self)@.refs[child@]
                } else {
                    Seq::<Seq<char>>::empty()
                };
                assert(nlv =~= cv.push(origin@));
            }
        }
    }

    /// Take in a successfully fetched and parsed page: mark it scraped and
    /// process its links in order against its final (post-redirect) URL —
    /// the page that links are resolved against and recorded as referrer.
    pub fn on_fetched(&mut self, url: &String, final_url: &String, hrefs: &Vec<String>)
        requires
            old(self).wf(),
            old(self)@.pages.contains_key(url@),
            old(self)@.pages[url@].0 is Fetching,
        ensures
            final(self).wf(),
            final(self).depth_bound() == old(self).depth_bound(),
            final(self).blocklist() == old(self).blocklist(),
            final(self)@ == links_fold(
                scraped_model(old(self)@, url@),
                old(self).blocklist(),
                old(self).depth_bound(),
                final_url@,
                old(self)@.pages[url@].1,
                hrefs@.map_values(|s: String| s@),
                hrefs@.len() as int,
            ),
    {
        let info = match self.page_lookup(url) {
            Some(info) => info,
            None => {
                proof {
                    assert(false);
                }
                (PageState::Enqueued, 0)
            },
        };
        let depth = info.1;
        let ghost pre_pages = self.page_pairs();
        proof {
            lemma_map_of_push(pre_pages, url@, (PageState::Scraped, depth as nat));
        }
        self.pages.push((url.clone(), (PageState::Scraped, depth)));
        proof {
            assert(self.page_pairs() =~= pre_pages.push((url@, (PageState::Scraped, depth as nat))));
            assert(self.ref_pairs() =~= old(self).ref_pairs());
            assert(self@ == scraped_model(old(self)@, url@));
        }
        let ghost m1 = self@;
        let ghost bl = self.blocklist();
        let ghost maxd = self.depth_bound();
        let ghost hv = hrefs@.map_values(|s: String| s@);
        let mut i: usize = 0;
        while i < hrefs.len()
            invariant
                i <= hrefs@.len(),
                self.depth_bound() == maxd,
                self.blocklist() == bl,
                depth as nat == old(self)@.pages[url@].1,
                self@ == links_fold(m1, bl, maxd, final_url@, depth as nat, hv, i as int),
            decreases hrefs@.len() - i,
        {
            let ghost gm = self@;
            let href = &hrefs[i];
            proof {
                assert(hv[i as int] == href@);
            }
            match join_url(final_url.as_str(), href.as_str()) {
                None => {},
                Some(child) => {
                    if depth >= self.max_depth {
                        proof {
                            assert(depth as nat + 1 > maxd);
                        }
                    } else if self.host_blocked(&child) {
                    } else {
                        self.add_referrer(&child, final_url);
                        proof {
                            assert(joined_of(final_url@, href@) == Some(child@));
                        }
                        match self.page_lookup(&child) {
                            Some(_) => {
                                proof {
                                    let ls = link_step(gm, bl, maxd, final_url@, depth as nat, href@);
                                    assert(self@.pages =~= ls.pages);
                                    assert(self@.queue =~= ls.queue);
                                    assert(self@.refs =~= ls.refs);
                                    assert(self@ =~= ls);
                                }
                            },
                            None => {
                                let ghost pre2 = self.page_pairs();
                                proof {
                                    lemma_map_of_push(
                                        pre2,
                                        child@,
                                        (PageState::Enqueued, (depth + 1) as nat),
                                    );
                                }
                                self.pages.push((child.clone(), (PageState::Enqueued, depth + 1)));
                                let ghost pre_q = self@.queue;
                                self.queue.push(child);
                                proof {
                                    let ls = link_step(gm, bl, maxd, final_url@, depth as nat, href@);
                                    assert(self.page_pairs() =~= pre2.push(
                                        (child@, (PageState::Enqueued, (depth + 1) as nat)),
                                    ));
                                    assert(self@.pages =~= ls.pages);
                                    assert(self@.queue =~= pre_q.push(child@));
                                    assert(pre_q == gm.queue);
                                    assert(self@.queue =~= ls.queue);
                                    assert(self@.refs =~= ls.refs);
                                    assert(self@ =~= ls);
                                }
                            },
                        }
                    }
                },
            }
            i = i + 1;
        }
        proof {
            lemma_links_fold_wf(m1, bl, maxd, final_url@, depth as nat, hv, hv.len() as int);
        }
    }

    /// Take in a failed fetch or parse: the page is dropped with no output
    /// and no links; nothing else changes.
    pub fn on_failed(&mut self, url: &String)
        requires
            old(self).wf(),
            old(self)@.pages.contains_key(url@),
            old(self)@.pages[url@].0 is Fetching,
        ensures
            final(self).wf(),
            final(self).depth_bound() == old(self).depth_bound(),
            final(self).blocklist() == old(self).blocklist(),
            final(self)@.refs == old(self)@.refs,
            final(self)@.queue == old(self)@.queue,
            final(self)@.pages == old(self)@.pages.insert(
                url@,
                (PageState::Failed, old(self)@.pages[url@].1),
            ),
    {
        let info = match self.page_lookup(url) {
            Some(info) => info,
            None => {
                proof {
                    assert(false);
                }
                (PageState::Enqueued, 0)
            },
        };
        let depth = info.1;
        let ghost pre_pages = self.page_pairs();
        proof {
            lemma_map_of_push(pre_pages, url@, (PageState::Failed, depth as nat));
        }
        self.pages.push((url.clone(), (PageState::Failed, depth)));
        proof {
            assert(self.page_pairs() =~= pre_pages.push((url@, (PageState::Failed, depth as nat))));
            assert(self.ref_pairs() =~= old(self).ref_pairs());
            let m = self@;
            let m0 = old(self)@;
            assert forall|u2: Seq<char>|
                m.pages.contains_key(u2) && (#[trigger] m.pages[u2]).0 is Enqueued
                implies m.queue.contains(u2) by {
                assert(u2 != url@);
                assert(m0.pages.contains_key(u2) && m0.pages[u2].0 is Enqueued);
            }
        }
    }
}

/// The frontier after a page moved from fetching to scraped.
pub open spec fn scraped_model(m: FrontierModel, url: Seq<char>) -> FrontierModel {
    FrontierModel { pages: m.pages.insert(url, (PageState::Scraped, m.pages[url].1)), ..m }
}

/// Is a string among these?
fn contains_string(list: &Vec<String>, s: &String) -> (b: bool)
    ensures
        b == list@.map_values(|x: String| x@).contains(s@),
{
    let ghost lv = list@.map_values(|x: String| x@);
    let mut i: usize = 0;
    while i < list.len()
        invariant
            i <= list@.len(),
            forall|j: int| 0 <= j < i ==> lv[j] != s@,
        decreases list@.len() - i,
    {
        let hit = string_eq(&list[i], s);
        if hit {
            proof {
                assert(lv[i as int] == s@);
            }
            return true;
        }
        i = i + 1;
    }
    false
}

/// A fresh list of the same strings.
fn duplicate_strings(list: &Vec<String>) -> (r: Vec<String>)
    ensures
        r@ == list@,
{
    let mut out: Vec<String> = Vec::new();
    let mut i: usize = 0;
    while i < list.len()
        invariant
            i <= list@.len(),
            out@.len() == i as nat,
            forall|j: int| 0 <= j < i ==> out@[j] == list@[j],
        decreases list@.len() - i,
    {
        out.push(list[i].clone());
        i = i + 1;
    }
    proof {
        assert(out@ =~= list@);
    }
    out
}

/// What `str::trim` returns: the input with leading and trailing
/// whitespace removed, a function of the characters alone.
pub uninterp spec fn trim_of(s: Seq<char>) -> Seq<char>;

/// Relies on `str::trim`.
#[verifier::external_body]
pub(crate) fn trim_str(s: &str) -> (r: String)
    ensures
        r@ == trim_of(s@),
{
    String::from(s.trim())
}

/// The model of a metadata candidate: was the element there, and did it
/// carry the attribute or text looked for?
pub open spec fn cand_model(c: Option<Option<String>>) -> Option<Option<Seq<char>>> {
    match c {
        Some(inner) => match inner {
            Some(s) => Some(Some(s@)),
            None => Some(None),
        },
        None => None,
    }
}

/// A metadata field from a preferred candidate and a fallback: the
/// preferred element's value, trimmed, when the element is there — empty
/// if it carries no value; else the fallback's value, trimmed; else empty.
pub open spec fn field_spec(meta: Option<Option<Seq<char>>>, fallback_text: Option<Seq<char>>) -> Seq<
    char,
> {
    match meta {
        Some(attr) => match attr {
            Some(s) => trim_of(s),
            None => Seq::<char>::empty(),
        },
        None => match fallback_text {
            Some(s) => trim_of(s),
            None => Seq::<char>::empty(),
        },
    }
}

/// Pick a metadata field from a preferred candidate and a fallback.
fn select_field(meta: Option<Option<String>>, fallback_text: Option<String>) -> (r: String)
    ensures
        r@ == field_spec(cand_model(meta), match fallback_text {
            Some(s) => Some(s@),
            None => None,
        }),
{
    match meta {
        Some(attr) => match attr {
            Some(s) => trim_str(s.as_str()),
            None => String::new(),
        },
        None => match fallback_text {
            Some(s) => trim_str(s.as_str()),
            None => String::new(),
        },
    }
}

/// A page's title: the site-name meta content, else the `<title>` text,
/// trimmed; empty without both.
pub fn select_title(meta_site_name: Option<Option<String>>, title_text: Option<String>) -> (r:
    String)
    ensures
        r@ == field_spec(cand_model(meta_site_name), match title_text {
            Some(s) => Some(s@),
            None => None,
        }),
{
    select_field(meta_site_name, title_text)
}

/// A page's header: the title meta content, else the first `<h1>` text,
/// trimmed; empty without both.
pub fn select_header(meta_title: Option<Option<String>>, h1_text: Option<String>) -> (r: String)
    ensures
        r@ == field_spec(cand_model(meta_title), match h1_text {
            Some(s) => Some(s@),
            None => None,
        }),
{
    select_field(meta_title, h1_text)
}

/// A page's description: the description meta content, trimmed; empty
/// without it.
pub fn select_description(meta_description: Option<Option<String>>) -> (r: String)
    ensures
        r@ == field_spec(cand_model(meta_description), None),
{
    select_field(meta_description, None)
}

} // verus!
