//! The snapshot cache: per-node snapshots, pending watches, and the decisions that
//! answer requests now or later.
use vstd::prelude::*;
use crate::discovery::{DiscoveryRequest, DiscoveryResponse, RequestView};
use crate::keys::{first_index, lemma_first_index, lemma_first_index_is, lemma_first_index_push};
use crate::known::{known_of, KnownResourceNames, KnownView};
use crate::response::{
    ads_consistent,
    build_response,
    check_ads_consistency,
    is_requesting_new_resources,
    is_response,
    requests_new_resources,
};
use crate::snapshot::{resources_of, version_of, Snapshot, SnapshotView};
use crate::text::str_eq;
use crate::watch::{
    get_watch,
    insert_watch,
    new_watches,
    take_watch,
    watch_keys,
    watch_requests,
    watch_responders,
    watch_stamps,
    Responder,
    Watch,
    WatchId,
};
use slab::Slab;

verus! {

/// Why a fetch has nothing to return.
#[derive(Debug, PartialEq, Eq, Structural)]
pub enum FetchError {
    /// No snapshot is set for the node.
    NotFound,
    /// The client already holds the snapshot's version.
    VersionUpToDate,
}

/// A response to be sent on a responder, with the request it answers.
pub struct Dispatch {
    pub tx: Responder,
    pub req: DiscoveryRequest,
    pub response: DiscoveryResponse,
}

/// What `create_watch` decided: a watch was installed, or a response is to be sent now.
pub enum WatchOutcome {
    Watching(WatchId),
    Respond(Dispatch),
}

struct NodeStatus {
    last_request_time: u64,
    watches: Slab<Watch>,
    next_stamp: u64,
}

impl NodeStatus {
    fn new(now: u64) -> (r: NodeStatus)
        ensures
            r.last_request_time == now,
            r.next_stamp == 0,
            watch_requests(r.watches) == Map::<usize, RequestView>::empty(),
            watch_responders(r.watches) == Map::<usize, Responder>::empty(),
            watch_stamps(r.watches) == Map::<usize, u64>::empty(),
    {
        let r = NodeStatus { last_request_time: now, watches: new_watches(), next_stamp: 0 };
        assert(watch_requests(r.watches) =~= Map::<usize, RequestView>::empty());
        assert(watch_responders(r.watches) =~= Map::<usize, Responder>::empty());
        assert(watch_stamps(r.watches) =~= Map::<usize, u64>::empty());
        r
    }
}

struct NodeEntry {
    node_id: String,
    status: Option<NodeStatus>,
    snapshot: Option<Snapshot>,
}

/// When a node last asked, and its pending watches: the request, the responder and
/// the stamp of each slot, and the stamp the next watch will get.
pub struct StatusView {
    pub last_request_time: u64,
    pub watches: Map<usize, RequestView>,
    pub responders: Map<usize, Responder>,
    pub stamps: Map<usize, u64>,
    pub next_stamp: u64,
}

/// The three slot maps of a status have the same keys.
pub open spec fn slots_agree(st: StatusView) -> bool {
    forall|k: usize|
        #![trigger st.watches.contains_key(k)]
        #![trigger st.responders.contains_key(k)]
        #![trigger st.stamps.contains_key(k)]
        st.watches.contains_key(k) == st.responders.contains_key(k) && st.watches.contains_key(k)
            == st.stamps.contains_key(k)
}

/// What the cache holds for one node: its status, once it has asked, and its snapshot.
pub struct NodeView {
    pub status: Option<StatusView>,
    pub snapshot: Option<SnapshotView>,
}

/// A node the cache has never heard of.
pub open spec fn unknown_node() -> NodeView {
    NodeView { status: None, snapshot: None }
}

/// The requests of the pending watches of a node; none without a status.
pub open spec fn watches_of(v: NodeView) -> Map<usize, RequestView> {
    match v.status {
        Some(st) => st.watches,
        None => Map::empty(),
    }
}

/// The responders of the pending watches of a node; none without a status.
pub open spec fn responders_of(v: NodeView) -> Map<usize, Responder> {
    match v.status {
        Some(st) => st.responders,
        None => Map::empty(),
    }
}

/// The request time recorded when a node asks at `now`: never earlier than the one before.
pub open spec fn touched_time(v: NodeView, now: u64) -> u64 {
    match v.status {
        Some(st) => if st.last_request_time > now {
            st.last_request_time
        } else {
            now
        },
        None => now,
    }
}

/// The status of a node once it asks at `now`: a new node starts with no watches.
pub open spec fn touched(v: NodeView, now: u64) -> StatusView {
    match v.status {
        Some(st) => StatusView { last_request_time: touched_time(v, now), ..st },
        None => StatusView {
            last_request_time: now,
            watches: Map::empty(),
            responders: Map::empty(),
            stamps: Map::empty(),
            next_stamp: 0,
        },
    }
}

/// The stamp issued after `n`; it stays at the largest value once there.
pub open spec fn next_after(n: u64) -> u64 {
    if n < u64::MAX {
        (n + 1) as u64
    } else {
        n
    }
}

/// A status once a watch on `q` answered on `tx` is installed at slot `k`, with the next stamp.
pub open spec fn with_watch(st: StatusView, k: usize, q: RequestView, tx: Responder) -> StatusView {
    StatusView {
        last_request_time: st.last_request_time,
        watches: st.watches.insert(k, q),
        responders: st.responders.insert(k, tx),
        stamps: st.stamps.insert(k, st.next_stamp),
        next_stamp: next_after(st.next_stamp),
    }
}

spec fn status_view(st: NodeStatus) -> StatusView {
    StatusView {
        last_request_time: st.last_request_time,
        watches: watch_requests(st.watches),
        responders: watch_responders(st.watches),
        stamps: watch_stamps(st.watches),
        next_stamp: st.next_stamp,
    }
}

spec fn entry_view(e: NodeEntry) -> NodeView {
    NodeView {
        status: match e.status {
            Some(st) => Some(status_view(st)),
            None => None,
        },
        snapshot: match e.snapshot {
            Some(s) => Some(s@),
            None => None,
        },
    }
}

spec fn entry_ok(e: NodeEntry) -> bool {
    match e.status {
        Some(st) => slots_agree(status_view(st)),
        None => true,
    }
}

spec fn status_watches(st: Option<NodeStatus>) -> Map<usize, RequestView> {
    match st {
        Some(st) => watch_requests(st.watches),
        None => Map::empty(),
    }
}

spec fn status_responders(st: Option<NodeStatus>) -> Map<usize, Responder> {
    match st {
        Some(st) => watch_responders(st.watches),
        None => Map::empty(),
    }
}

spec fn status_stamps(st: Option<NodeStatus>) -> Map<usize, u64> {
    match st {
        Some(st) => watch_stamps(st.watches),
        None => Map::empty(),
    }
}

/// A watch on `q` fires under snapshot `s` when the client's version differs from the snapshot's.
pub open spec fn fires(s: SnapshotView, q: RequestView) -> bool {
    q.version_info != version_of(s, q.type_url)
}

/// The keys of the watches of `w` that fire under `s`.
pub open spec fn fired_keys(w: Map<usize, RequestView>, s: SnapshotView) -> Set<usize> {
    Set::new(|k: usize| w.contains_key(k) && fires(s, w[k]))
}

/// The watches that stay pending once `s` is pushed.
pub open spec fn kept(w: Map<usize, RequestView>, s: SnapshotView) -> Map<usize, RequestView> {
    Map::new(|k: usize| w.contains_key(k) && !fires(s, w[k]), |k: usize| w[k])
}

/// Everything below the key at position `j` of a scan, or everything once the scan is done.
spec fn lim_at(keys: Seq<usize>, j: int) -> int {
    if 0 <= j < keys.len() {
        keys[j] as int
    } else {
        usize::MAX as int + 1
    }
}

/// A node once snapshot `s` is pushed to it: the fired watches leave, with their responders.
pub open spec fn after_push(v: NodeView, s: SnapshotView) -> NodeView {
    NodeView {
        status: match v.status {
            Some(st) => Some(
                StatusView {
                    last_request_time: st.last_request_time,
                    watches: kept(st.watches, s),
                    responders: st.responders.remove_keys(fired_keys(st.watches, s)),
                    stamps: st.stamps.remove_keys(fired_keys(st.watches, s)),
                    next_stamp: st.next_stamp,
                },
            ),
            None => None,
        },
        snapshot: Some(s),
    }
}

/// A node once the id of slot `index` and stamp `stamp` is cancelled: the slot empties
/// if it holds the watch of that stamp; otherwise nothing changes.
pub open spec fn after_cancel(v: NodeView, index: usize, stamp: u64) -> NodeView {
    match v.status {
        Some(st) => if st.stamps.contains_key(index) && st.stamps[index] == stamp {
            NodeView {
                status: Some(
                    StatusView {
                        watches: st.watches.remove(index),
                        responders: st.responders.remove(index),
                        stamps: st.stamps.remove(index),
                        ..st
                    },
                ),
                snapshot: v.snapshot,
            }
        } else {
            v
        },
        None => v,
    }
}

/// `r` answers, once each and in increasing key order, exactly the watches of `w`
/// that fire under `s`: each on the responder `x` holds for its slot, with the
/// response built from `s`.
pub open spec fn dispatched(
    w: Map<usize, RequestView>,
    x: Map<usize, Responder>,
    s: SnapshotView,
    r: Seq<Dispatch>,
) -> bool {
    exists|ks: Seq<usize>|
        {
            &&& ks.len() == r.len()
            &&& forall|a: int, b: int| 0 <= a < b < ks.len() ==> ks[a] < ks[b]
            &&& forall|t: int|
                0 <= t < ks.len() ==> {
                    &&& w.contains_key(#[trigger] ks[t])
                    &&& fires(s, w[ks[t]])
                    &&& r[t].req@ == w[ks[t]]
                    &&& r[t].tx == x[ks[t]]
                    &&& is_response(
                        r[t].response,
                        w[ks[t]],
                        resources_of(s, w[ks[t]].type_url),
                        version_of(s, w[ks[t]].type_url),
                    )
                }
            &&& forall|k: usize| w.contains_key(k) && fires(s, w[k]) ==> ks.contains(k)
        }
}

/// Whether `create_watch` answers at once: the node has a snapshot, the client asks for
/// resources it lacks or holds another version, and ADS consistency does not hold it back.
pub open spec fn responds_now(
    ads: bool,
    snap: Option<SnapshotView>,
    req: RequestView,
    known: KnownView,
) -> bool {
    match snap {
        None => false,
        Some(s) => {
            let bundle = resources_of(s, req.type_url);
            let wanted = requests_new_resources(req, bundle, known_of(known, req.type_url))
                || req.version_info != version_of(s, req.type_url);
            wanted && !(ads && !ads_consistent(req, bundle))
        },
    }
}

/// The result `fetch` owes for a node in state `v`.
pub open spec fn fetch_result(
    v: NodeView,
    req: RequestView,
    type_url: Seq<char>,
    r: Result<DiscoveryResponse, FetchError>,
) -> bool {
    match v.snapshot {
        None => r == Err::<DiscoveryResponse, FetchError>(FetchError::NotFound),
        Some(s) => if req.version_info == version_of(s, req.type_url) {
            r == Err::<DiscoveryResponse, FetchError>(FetchError::VersionUpToDate)
        } else {
            match r {
                Ok(resp) => is_response(
                    resp,
                    req,
                    resources_of(s, type_url),
                    version_of(s, req.type_url),
                ),
                Err(_) => false,
            }
        },
    }
}

/// Snapshots and pending watches of every node, and whether the cache serves ADS streams.
pub struct CacheState {
    nodes: Vec<NodeEntry>,
    ads: bool,
}

impl CacheState {
    spec fn keys(&self) -> Seq<Seq<char>> {
        self.nodes@.map_values(|e: NodeEntry| e.node_id@)
    }

    /// What the cache holds for node `n`.
    pub closed spec fn node(&self, n: Seq<char>) -> NodeView {
        let p = first_index(self.keys(), n);
        if p == -1 {
            unknown_node()
        } else {
            entry_view(self.nodes@[p])
        }
    }

    /// Whether ADS consistency applies.
    pub closed spec fn is_ads(&self) -> bool {
        self.ads
    }

    /// Every node is held once, and the slot maps of each status have the same keys.
    pub closed spec fn wf(&self) -> bool {
        &&& forall|i: int, j: int|
            0 <= i < j < self.nodes@.len() ==> self.nodes@[i].node_id@ != self.nodes@[j].node_id@
        &&& forall|i: int| 0 <= i < self.nodes@.len() ==> entry_ok(#[trigger] self.nodes@[i])
    }

    /// In a well-formed cache, the slot maps of every node's status have the same keys.
    pub proof fn lemma_slots_agree(&self, n: Seq<char>)
        requires
            self.wf(),
        ensures
            self.node(n).status.is_some() ==> slots_agree(self.node(n).status.unwrap()),
    {
        lemma_first_index(self.keys(), n);
        let p = first_index(self.keys(), n);
        if p != -1 {
            assert(entry_ok(self.nodes@[p]));
        }
    }

    pub fn new(ads: bool) -> (r: CacheState)
        ensures
            r.wf(),
            r.is_ads() == ads,
            forall|n: Seq<char>| #[trigger] r.node(n) == unknown_node(),
    {
        let r = CacheState { nodes: Vec::new(), ads };
        assert forall|n: Seq<char>| #[trigger] r.node(n) == unknown_node() by {
            lemma_first_index(r.keys(), n);
        }
        r
    }

    fn find(&self, n: &str) -> (r: Option<usize>)
        ensures
            match r {
                Some(i) => i < self.nodes@.len() && first_index(self.keys(), n@) == i,
                None => first_index(self.keys(), n@) == -1,
            },
    {
        let ghost keys = self.keys();
        let mut i: usize = 0;
        while i < self.nodes.len()
            invariant
                keys == self.keys(),
                i <= self.nodes@.len(),
                forall|j: int| 0 <= j < i ==> keys[j] != n@,
            decreases self.nodes@.len() - i,
        {
            if str_eq(self.nodes[i].node_id.as_str(), n) {
                proof {
                    lemma_first_index_is(keys, n@, i as int);
                }
                return Some(i);
            }
            i = i + 1;
        }
        proof {
            lemma_first_index_is(keys, n@, -1);
        }
        None
    }

    /// The position of node `n`, adding an empty entry for it when it has none.
    fn entry_for(&mut self, n: &str) -> (i: usize)
        requires
            old(self).wf(),
        ensures
            final(self).wf(),
            final(self).ads == old(self).ads,
            i < final(self).nodes@.len(),
            first_index(final(self).keys(), n@) == i,
            forall|m: Seq<char>| #[trigger] final(self).node(m) == old(self).node(m),
    {
        match self.find(n) {
            Some(i) => i,
            None => {
                let i = self.nodes.len();
                let ghost ok = self.keys();
                self.nodes.push(NodeEntry { node_id: n.to_owned(), status: None, snapshot: None });
                assert(self.keys() =~= ok.push(n@));
                proof {
                    lemma_first_index_push(ok, n@, n@);
                    lemma_first_index(ok, n@);
                }
                assert forall|m: Seq<char>| #[trigger] self.node(m) == old(self).node(m) by {
                    lemma_first_index_push(ok, n@, m);
                    lemma_first_index(ok, m);
                    if first_index(ok, m) != -1 {
                        assert(self.nodes@[first_index(ok, m)] == old(self).nodes@[first_index(
                            ok,
                            m,
                        )]);
                    } else if m == n@ {
                        assert(self.nodes@[i as int].status.is_none());
                    }
                }
                assert(forall|j: int| 0 <= j < ok.len() ==> ok[j] != n@);
                assert(forall|j: int| 0 <= j < ok.len() ==> self.nodes@[j] == old(self).nodes@[j]);
                assert(forall|j: int| 0 <= j < ok.len() ==> ok[j] == old(self).nodes@[j].node_id@);
                assert(self.nodes@[i as int].node_id@ == n@);
                assert forall|a: int, b: int|
                    0 <= a < b < self.nodes@.len() implies self.nodes@[a].node_id@
                    != self.nodes@[b].node_id@ by {
                    if b < i {
                        assert(old(self).nodes@[a].node_id@ != old(self).nodes@[b].node_id@);
                    } else {
                        assert(ok[a] != n@);
                    }
                }
                i
            },
        }
    }

    /// Puts `e` at position `i`, which holds the same node, and hands back what was there.
    fn swap_entry(&mut self, i: usize, e: NodeEntry) -> (prev: NodeEntry)
        requires
            old(self).wf(),
            i < old(self).nodes@.len(),
            old(self).nodes@[i as int].node_id@ == e.node_id@,
            entry_ok(e),
        ensures
            final(self).wf(),
            entry_ok(prev),
            final(self).ads == old(self).ads,
            final(self).nodes@.len() == old(self).nodes@.len(),
            final(self).keys() == old(self).keys(),
            prev == old(self).nodes@[i as int],
            final(self).node(e.node_id@) == entry_view(e),
            old(self).node(e.node_id@) == entry_view(prev),
            forall|m: Seq<char>|
                m != e.node_id@ ==> #[trigger] final(self).node(m) == old(self).node(m),
    {
        let ghost key = e.node_id@;
        let ghost ev = e;
        let mut x = e;
        self.nodes.set_and_swap(i, &mut x);
        assert(self.keys() =~= old(self).keys());
        assert(entry_ok(old(self).nodes@[i as int]));
        assert(forall|j: int| 0 <= j < self.nodes@.len() && j != i ==> self.nodes@[j] == old(self).nodes@[j]);
        proof {
            lemma_first_index(old(self).keys(), key);
            lemma_first_index_is(old(self).keys(), key, i as int);
        }
        assert forall|m: Seq<char>| m != key implies #[trigger] self.node(m) == old(self).node(m) by {
            lemma_first_index(old(self).keys(), m);
        }
        x
    }

    /// Sets the last request time of node `n`, creating its status when it has none.
    fn update_node_status(&mut self, n: &str, now: u64) -> (i: usize)
        requires
            old(self).wf(),
        ensures
            final(self).wf(),
            final(self).ads == old(self).ads,
            i < final(self).nodes@.len(),
            first_index(final(self).keys(), n@) == i,
            final(self).nodes@[i as int].status.is_some(),
            final(self).node(n@) == (NodeView {
                status: Some(touched(old(self).node(n@), now)),
                snapshot: old(self).node(n@).snapshot,
            }),
            forall|m: Seq<char>| m != n@ ==> #[trigger] final(self).node(m) == old(self).node(m),
    {
        let i = self.entry_for(n);
        proof {
            lemma_first_index(self.keys(), n@);
        }
        let key = self.nodes[i].node_id.clone();
        let e = self.swap_entry(i, NodeEntry { node_id: key, status: None, snapshot: None });
        let NodeEntry { node_id, status, snapshot } = e;
        let st = match status {
            Some(st) => {
                let t = if st.last_request_time > now {
                    st.last_request_time
                } else {
                    now
                };
                NodeStatus { last_request_time: t, watches: st.watches, next_stamp: st.next_stamp }
            },
            None => {
                let st = NodeStatus::new(now);
                assert(status_view(st) == touched(old(self).node(n@), now));
                st
            },
        };
        self.swap_entry(i, NodeEntry { node_id, status: Some(st), snapshot });
        i
    }

    /// Installs a watch in the status of the node at position `i`, stamped with the
    /// status's next stamp.
    fn set_watch(&mut self, i: usize, req: DiscoveryRequest, tx: Responder) -> (id: WatchId)
        requires
            old(self).wf(),
            i < old(self).nodes@.len(),
            old(self).nodes@[i as int].status.is_some(),
            first_index(old(self).keys(), old(self).keys()[i as int]) == i,
        ensures
            final(self).wf(),
            final(self).ads == old(self).ads,
            id.node_id@ == old(self).keys()[i as int],
            old(self).node(id.node_id@).status.is_some(),
            !watches_of(old(self).node(id.node_id@)).contains_key(id.index),
            id.stamp == old(self).node(id.node_id@).status.unwrap().next_stamp,
            final(self).node(id.node_id@) == (NodeView {
                status: Some(
                    with_watch(old(self).node(id.node_id@).status.unwrap(), id.index, req@, tx),
                ),
                snapshot: old(self).node(id.node_id@).snapshot,
            }),
            forall|m: Seq<char>|
                m != id.node_id@ ==> #[trigger] final(self).node(m) == old(self).node(m),
    {
        let key = self.nodes[i].node_id.clone();
        let e = self.swap_entry(i, NodeEntry { node_id: key, status: None, snapshot: None });
        let NodeEntry { node_id, status, snapshot } = e;
        let id_node = node_id.clone();
        let st = status.unwrap();
        let NodeStatus { last_request_time, watches, next_stamp } = st;
        let mut watches = watches;
        let stamp = next_stamp;
        let ghost q = req@;
        let ghost t = tx;
        let index = insert_watch(&mut watches, Watch { req, tx, stamp });
        let next_stamp = if next_stamp < u64::MAX {
            next_stamp + 1
        } else {
            next_stamp
        };
        let st = NodeStatus { last_request_time, watches, next_stamp };
        assert(status_view(st) =~= with_watch(status_view(e.status.unwrap()), index, q, t));
        self.swap_entry(i, NodeEntry { node_id, status: Some(st), snapshot });
        WatchId { node_id: id_node, index, stamp }
    }

    /// Answers `req` now, or installs a watch that answers it when the node's snapshot changes.
    pub fn create_watch(
        &mut self,
        req: DiscoveryRequest,
        tx: Responder,
        known: &KnownResourceNames,
        now: u64,
    ) -> (r: WatchOutcome)
        requires
            old(self).wf(),
        ensures
            final(self).wf(),
            final(self).is_ads() == old(self).is_ads(),
            forall|m: Seq<char>|
                m != req@.node_id ==> #[trigger] final(self).node(m) == old(self).node(m),
            final(self).node(req@.node_id).snapshot == old(self).node(req@.node_id).snapshot,
            responds_now(
                old(self).is_ads(),
                old(self).node(req@.node_id).snapshot,
                req@,
                known@,
            ) ==> match r {
                WatchOutcome::Respond(d) => {
                    let s = old(self).node(req@.node_id).snapshot.unwrap();
                    &&& d.req@ == req@
                    &&& d.tx == tx
                    &&& is_response(
                        d.response,
                        req@,
                        resources_of(s, req@.type_url),
                        version_of(s, req@.type_url),
                    )
                    &&& final(self).node(req@.node_id).status == Some(
                        touched(old(self).node(req@.node_id), now),
                    )
                },
                WatchOutcome::Watching(_) => false,
            },
            !responds_now(
                old(self).is_ads(),
                old(self).node(req@.node_id).snapshot,
                req@,
                known@,
            ) ==> match r {
                WatchOutcome::Watching(id) => {
                    &&& id.node_id@ == req@.node_id
                    &&& !touched(old(self).node(req@.node_id), now).watches.contains_key(id.index)
                    &&& id.stamp == touched(old(self).node(req@.node_id), now).next_stamp
                    &&& final(self).node(req@.node_id).status == Some(
                        with_watch(touched(old(self).node(req@.node_id), now), id.index, req@, tx),
                    )
                },
                WatchOutcome::Respond(_) => false,
            },
    {
        let node_id = crate::discovery::hash_id(&req.node);
        let i = self.update_node_status(node_id.as_str(), now);
        proof {
            lemma_first_index(self.keys(), node_id@);
        }
        let answer = match &self.nodes[i].snapshot {
            None => None,
            Some(snapshot) => {
                let resources = snapshot.resources(req.type_url.as_str());
                let version = snapshot.version(req.type_url.as_str());
                let wanted = is_requesting_new_resources(
                    &req,
                    resources,
                    known.get(req.type_url.as_str()),
                ) || !str_eq(req.version_info.as_str(), version);
                if wanted && !(self.ads && !check_ads_consistency(&req, resources)) {
                    Some(build_response(&req, resources, version))
                } else {
                    None
                }
            },
        };
        match answer {
            Some(response) => WatchOutcome::Respond(Dispatch { tx, req, response }),
            None => WatchOutcome::Watching(self.set_watch(i, req, tx)),
        }
    }

    /// Removes the watch `id`, if it is still pending; no response is sent for it.
    /// An id whose watch is gone changes nothing, even where its slot now holds a later watch.
    pub fn cancel_watch(&mut self, id: &WatchId)
        requires
            old(self).wf(),
        ensures
            final(self).wf(),
            final(self).is_ads() == old(self).is_ads(),
            final(self).node(id.node_id@) == after_cancel(
                old(self).node(id.node_id@),
                id.index,
                id.stamp,
            ),
            forall|m: Seq<char>|
                m != id.node_id@ ==> #[trigger] final(self).node(m) == old(self).node(m),
    {
        match self.find(id.node_id.as_str()) {
            None => {},
            Some(i) => {
                proof {
                    lemma_first_index(self.keys(), id.node_id@);
                }
                let key = self.nodes[i].node_id.clone();
                let e = self.swap_entry(i, NodeEntry { node_id: key, status: None, snapshot: None });
                let NodeEntry { node_id, status, snapshot } = e;
                let status = match status {
                    None => None,
                    Some(st) => {
                        let mut st = st;
                        let live = match get_watch(&st.watches, id.index) {
                            Some(w) => w.stamp == id.stamp,
                            None => false,
                        };
                        if live {
                            let _ = take_watch(&mut st.watches, id.index);
                            assert(status_view(st) =~= after_cancel(
                                old(self).node(id.node_id@),
                                id.index,
                                id.stamp,
                            ).status.unwrap());
                        }
                        Some(st)
                    },
                };
                self.swap_entry(i, NodeEntry { node_id, status, snapshot });
            },
        }
    }

    /// The response for `req` from the node's snapshot, built over the bundle of `type_url`.
    pub fn fetch(&self, req: &DiscoveryRequest, type_url: &str) -> (r: Result<
        DiscoveryResponse,
        FetchError,
    >)
        requires
            self.wf(),
        ensures
            fetch_result(self.node(req@.node_id), req@, type_url@, r),
    {
        let node_id = crate::discovery::hash_id(&req.node);
        match self.find(node_id.as_str()) {
            None => Err(FetchError::NotFound),
            Some(i) => match &self.nodes[i].snapshot {
                None => Err(FetchError::NotFound),
                Some(snapshot) => {
                    let version = snapshot.version(req.type_url.as_str());
                    if str_eq(req.version_info.as_str(), version) {
                        Err(FetchError::VersionUpToDate)
                    } else {
                        Ok(build_response(req, snapshot.resources(type_url), version))
                    }
                },
            },
        }
    }

    /// The last request time of every node that has made a request.
    pub fn node_status(&self) -> (r: Vec<(String, u64)>)
        requires
            self.wf(),
        ensures
            forall|a: int, b: int| 0 <= a < b < r@.len() ==> r@[a].0@ != r@[b].0@,
            forall|t: int|
                0 <= t < r@.len() ==> #[trigger] self.node(r@[t].0@).status.is_some()
                    && self.node(r@[t].0@).status.unwrap().last_request_time == r@[t].1,
            forall|n: Seq<char>|
                #![trigger self.node(n)]
                self.node(n).status.is_some() ==> exists|t: int|
                    0 <= t < r@.len() && r@[t].0@ == n,
    {
        let mut r: Vec<(String, u64)> = Vec::new();
        let ghost keys = self.keys();
        let ghost mut idx: Seq<int> = Seq::empty();
        let ghost mut pos: Seq<int> = Seq::empty();
        let mut i: usize = 0;
        while i < self.nodes.len()
            invariant
                self.wf(),
                keys == self.keys(),
                i <= self.nodes@.len(),
                idx.len() == r@.len(),
                pos.len() == i,
                forall|t: int|
                    0 <= t < r@.len() ==> {
                        &&& 0 <= #[trigger] idx[t] < i
                        &&& r@[t].0@ == keys[idx[t]]
                        &&& self.nodes@[idx[t]].status.is_some()
                        &&& self.nodes@[idx[t]].status.unwrap().last_request_time == r@[t].1
                    },
                forall|a: int, b: int| 0 <= a < b < idx.len() ==> idx[a] < idx[b],
                forall|j: int|
                    0 <= j < i && self.nodes@[j].status.is_some() ==> 0 <= #[trigger] pos[j]
                        < r@.len() && idx[pos[j]] == j,
            decreases self.nodes@.len() - i,
        {
            match &self.nodes[i].status {
                None => {
                    proof {
                        pos = pos.push(0);
                    }
                },
                Some(st) => {
                    proof {
                        pos = pos.push(r@.len() as int);
                        idx = idx.push(i as int);
                    }
                    r.push((self.nodes[i].node_id.clone(), st.last_request_time));
                },
            }
            i = i + 1;
        }
        assert forall|a: int, b: int| 0 <= a < b < r@.len() implies r@[a].0@ != r@[b].0@ by {
            assert(idx[a] < idx[b]);
        }
        assert forall|t: int| 0 <= t < r@.len() implies #[trigger] self.node(r@[t].0@).status.is_some()
            && self.node(r@[t].0@).status.unwrap().last_request_time == r@[t].1 by {
            let j = idx[t];
            assert forall|k: int| 0 <= k < j implies keys[k] != keys[j] by {}
            lemma_first_index_is(keys, keys[j], j);
        }
        assert forall|n: Seq<char>| #[trigger] self.node(n).status.is_some() implies exists|t: int|
            0 <= t < r@.len() && r@[t].0@ == n by {
            lemma_first_index(keys, n);
            let j = first_index(keys, n);
            assert(self.nodes@[j].status.is_some());
            assert(r@[pos[j]].0@ == n);
        }
        r
    }

    /// Installs `snapshot` for node `node` and discharges the node's watches whose
    /// version differs from the new one; the responses to send come back.
    pub fn set_snapshot(&mut self, node: &str, snapshot: Snapshot) -> (r: Vec<Dispatch>)
        requires
            old(self).wf(),
        ensures
            final(self).wf(),
            final(self).is_ads() == old(self).is_ads(),
            final(self).node(node@) == after_push(old(self).node(node@), snapshot@),
            forall|m: Seq<char>| m != node@ ==> #[trigger] final(self).node(m) == old(self).node(m),
            dispatched(
                watches_of(old(self).node(node@)),
                responders_of(old(self).node(node@)),
                snapshot@,
                r@,
            ),
    {
        let ghost sv = snapshot@;
        let i = self.entry_for(node);
        proof {
            lemma_first_index(self.keys(), node@);
        }
        let key = self.nodes[i].node_id.clone();
        let e = self.swap_entry(i, NodeEntry { node_id: key, status: None, snapshot: None });
        let NodeEntry { node_id, status, snapshot: _ } = e;
        let mut out: Vec<Dispatch> = Vec::new();
        let ghost mut ks: Seq<usize> = Seq::empty();
        let ghost w0 = status_watches(status);
        let ghost x0 = status_responders(status);
        let ghost z0 = status_stamps(status);
        let status = match status {
            None => None,
            Some(st) => {
                let NodeStatus { last_request_time, watches, next_stamp } = st;
                let mut watches = watches;
                let keys = watch_keys(&watches);
                proof {
                    assert forall|q: usize| w0.contains_key(q) implies lim_at(keys@, 0) <= q by {
                        assert(keys@.contains(q));
                        let a = choose|a: int| 0 <= a < keys@.len() && keys@[a] == q;
                        if a > 0 {
                            assert(keys@[0] < keys@[a]);
                        }
                    }
                }
                let mut j: usize = 0;
                while j < keys.len()
                    invariant
                        snapshot@ == sv,
                        w0 == watches_of(old(self).node(node@)),
                        x0 == responders_of(old(self).node(node@)),
                        z0 == status_stamps(e.status),
                        j <= keys@.len(),
                        forall|k: usize|
                            #[trigger] watch_stamps(watches).contains_key(k) == (z0.contains_key(k)
                                && !(w0.contains_key(k) && k < lim_at(keys@, j as int) && fires(
                                sv,
                                w0[k],
                            ))),
                        forall|k: usize|
                            #[trigger] watch_stamps(watches).contains_key(k) ==> watch_stamps(
                                watches,
                            )[k] == z0[k],
                        forall|k: usize|
                            #[trigger] watch_responders(watches).contains_key(k) == (x0.contains_key(
                                k,
                            ) && !(w0.contains_key(k) && k < lim_at(keys@, j as int) && fires(
                                sv,
                                w0[k],
                            ))),
                        forall|k: usize|
                            #[trigger] watch_responders(watches).contains_key(k)
                                ==> watch_responders(watches)[k] == x0[k],
                        forall|a: int, b: int| 0 <= a < b < keys@.len() ==> keys@[a] < keys@[b],
                        forall|a: int| 0 <= a < keys@.len() ==> w0.contains_key(#[trigger] keys@[a]),
                        forall|k: usize| w0.contains_key(k) ==> keys@.contains(k),
                        forall|k: usize|
                            #[trigger] watch_requests(watches).contains_key(k) == (w0.contains_key(k)
                                && !(k < lim_at(keys@, j as int) && fires(sv, w0[k]))),
                        forall|k: usize|
                            #[trigger] watch_requests(watches).contains_key(k) ==> watch_requests(
                                watches,
                            )[k] == w0[k],
                        ks.len() == out@.len(),
                        forall|a: int, b: int| 0 <= a < b < ks.len() ==> ks[a] < ks[b],
                        forall|t: int| 0 <= t < ks.len() ==> #[trigger] ks[t] < lim_at(keys@, j as int),
                        forall|t: int|
                            0 <= t < ks.len() ==> {
                                &&& w0.contains_key(#[trigger] ks[t])
                                &&& fires(sv, w0[ks[t]])
                                &&& out@[t].req@ == w0[ks[t]]
                                &&& out@[t].tx == x0[ks[t]]
                                &&& is_response(
                                    out@[t].response,
                                    w0[ks[t]],
                                    resources_of(sv, w0[ks[t]].type_url),
                                    version_of(sv, w0[ks[t]].type_url),
                                )
                            },
                        forall|k: usize|
                            w0.contains_key(k) && k < lim_at(keys@, j as int) && fires(sv, w0[k])
                                ==> ks.contains(k),
                    decreases keys@.len() - j,
                {
                    let k = keys[j];
                    let fire = match get_watch(&watches, k) {
                        Some(w) => !str_eq(
                            w.req.version_info.as_str(),
                            snapshot.version(w.req.type_url.as_str()),
                        ),
                        None => false,
                    };
                    let ghost before = out@;
                    let ghost ks_before = ks;
                    if fire {
                        match take_watch(&mut watches, k) {
                            Some(w) => {
                                let response = build_response(
                                    &w.req,
                                    snapshot.resources(w.req.type_url.as_str()),
                                    snapshot.version(w.req.type_url.as_str()),
                                );
                                let Watch { req, tx, stamp: _ } = w;
                                out.push(Dispatch { tx, req, response });
                                proof {
                                    ks = ks.push(k);
                                    assert(out@[ks.len() - 1] == out@.last());
                                    assert forall|t: int| 0 <= t < ks.len() - 1 implies out@[t] == before[t] by {}
                                }
                            },
                            None => {},
                        }
                    }
                    proof {
                        let nl = lim_at(keys@, j + 1);
                        assert(nl > k);
                        assert forall|q: usize| w0.contains_key(q) && k < q implies nl <= q by {
                            assert(keys@.contains(q));
                            let a = choose|a: int| 0 <= a < keys@.len() && keys@[a] == q;
                            if a <= j {
                                if a < j {
                                    assert(keys@[a] < keys@[j as int]);
                                }
                            }
                        }
                        assert forall|q: usize|
                            w0.contains_key(q) && q < nl && fires(sv, w0[q]) implies ks.contains(q) by {
                            if q < k {
                                assert(ks_before.contains(q));
                                let t = choose|t: int| 0 <= t < ks_before.len() && ks_before[t] == q;
                                assert(ks[t] == q);
                            } else {
                                assert(q == k);
                                assert(ks[ks.len() - 1] == k);
                            }
                        }
                    }
                    j = j + 1;
                }
                Some(NodeStatus { last_request_time, watches, next_stamp })
            },
        };
        let ghost wsv = status_watches(status);
        let ghost xsv = status_responders(status);
        let ghost zsv = status_stamps(status);
        proof {
            if old(self).node(node@).status.is_some() {
                assert(wsv =~= kept(w0, sv));
                assert(xsv =~= x0.remove_keys(fired_keys(w0, sv)));
                assert(zsv =~= z0.remove_keys(fired_keys(w0, sv)));
                assert(entry_ok(e));
            }
        }
        assert(dispatched(w0, x0, sv, out@)) by {
            assert(ks.len() == out@.len());
        }
        self.swap_entry(i, NodeEntry { node_id, status, snapshot: Some(snapshot) });
        out
    }
}

} // verus!
