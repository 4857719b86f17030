//! Pending watches: a slab of requests with their responders, keyed by stable indices.
use vstd::prelude::*;
use crate::discovery::{DiscoveryRequest, DiscoveryResponse, RequestView};
use slab::Slab;
use tokio::sync::mpsc::Sender;

verus! {

#[verifier::external_type_specification]
#[verifier::external_body]
#[verifier::reject_recursive_types(T)]
pub struct ExSlab<T>(slab::Slab<T>);

#[verifier::external_type_specification]
#[verifier::external_body]
#[verifier::reject_recursive_types(T)]
pub struct ExSender<T>(tokio::sync::mpsc::Sender<T>);

/// The channel end on which a watch's single answer is sent.
pub type Responder = Sender<(DiscoveryRequest, DiscoveryResponse)>;

/// A pending request together with the channel its answer goes to.
pub struct Watch {
    pub req: DiscoveryRequest,
    pub tx: Responder,
    /// Which of the node's watches this is: stamps are issued in increasing order.
    pub stamp: u64,
}

/// The handle that cancels a watch.
#[derive(Clone, Debug)]
pub struct WatchId {
    pub node_id: String,
    pub index: usize,
    /// The stamp of the watch this id was issued for; a slot reused by a later watch
    /// holds another stamp.
    pub stamp: u64,
}

/// The occupied slots of a watch slab, each with the request it holds.
pub uninterp spec fn watch_requests(s: Slab<Watch>) -> Map<usize, RequestView>;

/// The occupied slots of a watch slab, each with the responder it holds.
pub uninterp spec fn watch_responders(s: Slab<Watch>) -> Map<usize, Responder>;

/// The occupied slots of a watch slab, each with the stamp of the watch it holds.
pub uninterp spec fn watch_stamps(s: Slab<Watch>) -> Map<usize, u64>;

/// Relies on slab::Slab::new: a new slab holds nothing.
#[verifier::external_body]
pub(crate) fn new_watches() -> (r: Slab<Watch>)
    ensures
        forall|k: usize| !watch_requests(r).contains_key(k),
        forall|k: usize| !watch_responders(r).contains_key(k),
        forall|k: usize| !watch_stamps(r).contains_key(k),
{
    Slab::new()
}

/// Relies on slab::Slab::insert: the value goes into a vacant slot, whose key is returned.
#[verifier::external_body]
pub(crate) fn insert_watch(s: &mut Slab<Watch>, w: Watch) -> (k: usize)
    ensures
        !watch_requests(*old(s)).contains_key(k),
        !watch_responders(*old(s)).contains_key(k),
        !watch_stamps(*old(s)).contains_key(k),
        watch_requests(*final(s)) == watch_requests(*old(s)).insert(k, w.req@),
        watch_responders(*final(s)) == watch_responders(*old(s)).insert(k, w.tx),
        watch_stamps(*final(s)) == watch_stamps(*old(s)).insert(k, w.stamp),
{
    s.insert(w)
}

/// Relies on slab::Slab::try_remove: an occupied slot is emptied and its value returned;
/// a vacant or unknown key changes nothing.
#[verifier::external_body]
pub(crate) fn take_watch(s: &mut Slab<Watch>, k: usize) -> (r: Option<Watch>)
    ensures
        match r {
            Some(w) => {
                &&& watch_requests(*old(s)).contains_key(k)
                &&& w.req@ == watch_requests(*old(s))[k]
                &&& watch_requests(*final(s)) == watch_requests(*old(s)).remove(k)
                &&& watch_responders(*old(s)).contains_key(k)
                &&& w.tx == watch_responders(*old(s))[k]
                &&& watch_responders(*final(s)) == watch_responders(*old(s)).remove(k)
                &&& watch_stamps(*old(s)).contains_key(k)
                &&& w.stamp == watch_stamps(*old(s))[k]
                &&& watch_stamps(*final(s)) == watch_stamps(*old(s)).remove(k)
            },
            None => {
                &&& !watch_requests(*old(s)).contains_key(k)
                &&& watch_requests(*final(s)) == watch_requests(*old(s))
                &&& !watch_responders(*old(s)).contains_key(k)
                &&& watch_responders(*final(s)) == watch_responders(*old(s))
                &&& !watch_stamps(*old(s)).contains_key(k)
                &&& watch_stamps(*final(s)) == watch_stamps(*old(s))
            },
        },
{
    s.try_remove(k)
}

/// Relies on slab::Slab::get: the value of an occupied slot.
#[verifier::external_body]
pub(crate) fn get_watch(s: &Slab<Watch>, k: usize) -> (r: Option<&Watch>)
    ensures
        match r {
            Some(w) => {
                &&& watch_requests(*s).contains_key(k)
                &&& w.req@ == watch_requests(*s)[k]
                &&& watch_responders(*s).contains_key(k)
                &&& w.tx == watch_responders(*s)[k]
                &&& watch_stamps(*s).contains_key(k)
                &&& w.stamp == watch_stamps(*s)[k]
            },
            None => {
                &&& !watch_requests(*s).contains_key(k)
                &&& !watch_responders(*s).contains_key(k)
                &&& !watch_stamps(*s).contains_key(k)
            },
        },
{
    s.get(k)
}

/// Relies on slab::Slab::iter: each occupied key once, in increasing order.
#[verifier::external_body]
pub(crate) fn watch_keys(s: &Slab<Watch>) -> (r: Vec<usize>)
    ensures
        forall|i: int, j: int| 0 <= i < j < r@.len() ==> r@[i] < r@[j],
        forall|i: int| 0 <= i < r@.len() ==> watch_requests(*s).contains_key(#[trigger] r@[i]),
        forall|k: usize| watch_requests(*s).contains_key(k) ==> r@.contains(k),
{
    s.iter().map(|(k, _)| k).collect()
}

} // verus!
