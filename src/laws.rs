//! Properties of the cache that relate several operations, proved over their contracts.
use vstd::prelude::*;
use crate::cache::{
    after_cancel,
    after_push,
    dispatched,
    fetch_result,
    fired_keys,
    fires,
    kept,
    touched_time,
    with_watch,
    StatusView,
    watches_of,
    Dispatch,
    FetchError,
    NodeView,
};
use crate::discovery::{any_views, DiscoveryResponse, RequestView};
use crate::response::{ads_consistent, filtered, is_response};
use crate::snapshot::{resources_of, version_of, ResourceView, SnapshotView};
use crate::watch::Responder;

verus! {

/// Once a snapshot is pushed, every watch still pending for the node holds the
/// snapshot's version of its type: the others were all discharged.
pub proof fn lemma_pending_watches_are_current(v: NodeView, s: SnapshotView)
    ensures
        forall|k: usize| #[trigger]
            watches_of(after_push(v, s)).contains_key(k) ==> watches_of(after_push(v, s))[k].version_info
                == version_of(s, watches_of(after_push(v, s))[k].type_url),
{
}

/// When every pending watch of the node is stale for the pushed snapshot, no watch whose
/// version equals the snapshot's stays pending.
pub proof fn lemma_no_current_watch_left(v: NodeView, s: SnapshotView)
    requires
        forall|k: usize| #[trigger] watches_of(v).contains_key(k) ==> fires(s, watches_of(v)[k]),
    ensures
        forall|k: usize| #[trigger]
            watches_of(after_push(v, s)).contains_key(k) ==> watches_of(after_push(v, s))[k].version_info
                != version_of(s, watches_of(after_push(v, s))[k].type_url),
{
    assert forall|k: usize| !#[trigger] watches_of(after_push(v, s)).contains_key(k) by {
        if watches_of(after_push(v, s)).contains_key(k) {
            assert(watches_of(v).contains_key(k));
        }
    }
}

/// A pending watch meets a push in one of two ways: it fires, leaves the table with its
/// responder, and is answered on that responder with the response built from the
/// snapshot; or it does not fire and stays, with the same request and responder.
pub proof fn lemma_push_discharges_or_keeps(
    w: Map<usize, RequestView>,
    x: Map<usize, Responder>,
    s: SnapshotView,
    r: Seq<Dispatch>,
    k: usize,
)
    requires
        dispatched(w, x, s, r),
        w.contains_key(k),
        x.contains_key(k),
    ensures
        fires(s, w[k]) ==> {
            &&& !kept(w, s).contains_key(k)
            &&& !x.remove_keys(fired_keys(w, s)).contains_key(k)
            &&& exists|t: int|
                0 <= t < r.len() && #[trigger] r[t].req@ == w[k] && r[t].tx == x[k]
                    && is_response(
                    r[t].response,
                    w[k],
                    resources_of(s, w[k].type_url),
                    version_of(s, w[k].type_url),
                )
        },
        !fires(s, w[k]) ==> {
            &&& kept(w, s).contains_key(k)
            &&& kept(w, s)[k] == w[k]
            &&& x.remove_keys(fired_keys(w, s)).contains_key(k)
            &&& x.remove_keys(fired_keys(w, s))[k] == x[k]
        },
{
    if fires(s, w[k]) {
        let ks = choose|ks: Seq<usize>|
            {
                &&& ks.len() == r.len()
                &&& forall|a: int, b: int| 0 <= a < b < ks.len() ==> ks[a] < ks[b]
                &&& forall|t: int|
                    0 <= t < ks.len() ==> {
                        &&& w.contains_key(#[trigger] ks[t])
                        &&& fires(s, w[ks[t]])
                        &&& r[t].req@ == w[ks[t]]
                        &&& r[t].tx == x[ks[t]]
                        &&& is_response(
                            r[t].response,
                            w[ks[t]],
                            resources_of(s, w[ks[t]].type_url),
                            version_of(s, w[ks[t]].type_url),
                        )
                    }
                &&& forall|q: usize| w.contains_key(q) && fires(s, w[q]) ==> ks.contains(q)
            };
        assert(ks.contains(k));
        let t = choose|t: int| 0 <= t < ks.len() && ks[t] == k;
        assert(r[t].req@ == w[k]);
        assert(fired_keys(w, s).contains(k));
    } else {
        assert(!fired_keys(w, s).contains(k));
    }
}

/// Cancelling with the same id twice leaves the node as cancelling once.
pub proof fn lemma_cancel_idempotent(v: NodeView, index: usize, stamp: u64)
    ensures
        after_cancel(after_cancel(v, index, stamp), index, stamp) == after_cancel(v, index, stamp),
{
}

/// Cancelling with an id whose watch is no longer pending changes nothing: the slot is
/// empty, or the node has no status, or the slot holds a watch of another stamp.
pub proof fn lemma_cancel_unknown(v: NodeView, index: usize, stamp: u64)
    requires
        v.status.is_some() ==> !v.status.unwrap().stamps.contains_key(index)
            || v.status.unwrap().stamps[index] != stamp,
    ensures
        after_cancel(v, index, stamp) == v,
{
}

/// A watch installed after an id was issued has a later stamp as long as stamps have not
/// run out; so a stale id never cancels the watch that took over its slot.
pub proof fn lemma_stale_id_spares_later_watch(
    st: StatusView,
    k: usize,
    q: RequestView,
    tx: Responder,
    snapshot: Option<SnapshotView>,
    stamp: u64,
)
    requires
        stamp < st.next_stamp,
    ensures
        with_watch(st, k, q, tx).stamps[k] != stamp,
        after_cancel(
            NodeView { status: Some(with_watch(st, k, q, tx)), snapshot },
            k,
            stamp,
        ) == (NodeView { status: Some(with_watch(st, k, q, tx)), snapshot }),
        st.next_stamp < u64::MAX ==> stamp < with_watch(st, k, q, tx).next_stamp,
{
}

/// A node's recorded request time never goes back, and is never earlier than the request.
pub proof fn lemma_request_time_never_decreases(v: NodeView, now: u64)
    ensures
        touched_time(v, now) >= now,
        v.status.is_some() ==> touched_time(v, now) >= v.status.unwrap().last_request_time,
{
}

/// A request naming no resources, or a type without a bundle, is always ADS-consistent.
pub proof fn lemma_ads_consistent_without_names_or_bundle(
    req: RequestView,
    bundle: Option<Seq<ResourceView>>,
)
    requires
        req.resource_names.len() == 0 || bundle.is_none(),
    ensures
        ads_consistent(req, bundle),
{
}

/// A fetch right after a push, for the request's own type and with a stale version,
/// answers with the pushed version and the requested selection of the pushed bundle.
pub proof fn lemma_fetch_after_push(
    v: NodeView,
    s: SnapshotView,
    req: RequestView,
    type_url: Seq<char>,
    r: Result<DiscoveryResponse, FetchError>,
)
    requires
        req.type_url == type_url,
        req.version_info != version_of(s, type_url),
        fetch_result(after_push(v, s), req, type_url, r),
    ensures
        r.is_ok(),
        r.unwrap().version_info@ == version_of(s, type_url),
        r.unwrap().type_url@ == type_url,
        any_views(r.unwrap().resources@) == filtered(req.resource_names, resources_of(s, type_url)),
{
}

} // verus!
