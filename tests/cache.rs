use tokio::sync::mpsc::{channel, Receiver};
use xds_cache::cache::{CacheState, FetchError, WatchOutcome};
use xds_cache::discovery::{DiscoveryRequest, DiscoveryResponse, Node};
use xds_cache::known::KnownResourceNames;
use xds_cache::response::{build_response, check_ads_consistency, is_requesting_new_resources};
use xds_cache::snapshot::{Resource, Resources, Snapshot};
use xds_cache::type_url::CLUSTER;
use xds_cache::watch::Responder;

fn request(node: &str, type_url: &str, version: &str, names: &[&str]) -> DiscoveryRequest {
    DiscoveryRequest {
        version_info: version.to_string(),
        node: Some(Node { id: node.to_string(), cluster: String::new() }),
        resource_names: names.iter().map(|n| n.to_string()).collect(),
        type_url: type_url.to_string(),
        response_nonce: String::new(),
        error_detail: None,
    }
}

fn resource(name: &str) -> Resource {
    Resource {
        name: name.to_string(),
        type_url: CLUSTER.to_string(),
        value: name.as_bytes().to_vec(),
    }
}

fn bundle(names: &[&str]) -> Resources {
    let mut b = Resources::new();
    for n in names {
        b.insert(resource(n));
    }
    b
}

fn snapshot(version: &str, names: &[&str]) -> Snapshot {
    let mut s = Snapshot::new();
    s.set(CLUSTER.to_string(), version.to_string(), bundle(names));
    s
}

fn responder() -> (Responder, Receiver<(DiscoveryRequest, DiscoveryResponse)>) {
    channel(4)
}

fn payload_names(resp: &DiscoveryResponse) -> Vec<Vec<u8>> {
    resp.resources.iter().map(|a| a.value.clone()).collect()
}

#[test]
fn set_watch_then_push_answers_once() {
    let mut cache = CacheState::new(false);
    let (tx, _rx) = responder();
    let out = cache.create_watch(request("N", CLUSTER, "", &[]), tx, &KnownResourceNames::new(), 1);
    assert!(matches!(out, WatchOutcome::Watching(_)));
    let sent = cache.set_snapshot("N", snapshot("v1", &["c1"]));
    assert_eq!(sent.len(), 1);
    assert_eq!(sent[0].response.version_info, "v1");
    assert_eq!(sent[0].response.type_url, CLUSTER);
    assert_eq!(payload_names(&sent[0].response), vec![b"c1".to_vec()]);
    assert_eq!(sent[0].response.nonce, "");
    assert!(!sent[0].response.canary);
    assert!(sent[0].response.control_plane.is_none());
    // the watch is gone: a second push answers nothing
    let again = cache.set_snapshot("N", snapshot("v2", &["c1"]));
    assert_eq!(again.len(), 0);
}

#[test]
fn already_current_client_waits_for_new_version() {
    let mut cache = CacheState::new(false);
    cache.set_snapshot("N", snapshot("v1", &["c1"]));
    let mut known = KnownResourceNames::new();
    known.insert(CLUSTER.to_string(), vec!["c1".to_string()]);
    let (tx2, _rx2) = responder();
    let out = cache.create_watch(request("N", CLUSTER, "v1", &[]), tx2, &known, 2);
    assert!(matches!(out, WatchOutcome::Watching(_)));
    assert_eq!(cache.set_snapshot("N", snapshot("v1", &["c1"])).len(), 0);
    let sent = cache.set_snapshot("N", snapshot("v2", &["c1"]));
    assert_eq!(sent.len(), 1);
    assert_eq!(sent[0].response.version_info, "v2");
}

#[test]
fn new_resource_in_request_is_answered_immediately() {
    let mut cache = CacheState::new(false);
    cache.set_snapshot("N", snapshot("v1", &["c1", "c2"]));
    let mut known = KnownResourceNames::new();
    known.insert(CLUSTER.to_string(), vec!["c1".to_string()]);
    let (tx, _rx) = responder();
    match cache.create_watch(request("N", CLUSTER, "v1", &["c2"]), tx, &known, 1) {
        WatchOutcome::Respond(d) => {
            assert_eq!(d.response.version_info, "v1");
            assert_eq!(payload_names(&d.response), vec![b"c2".to_vec()]);
            assert_eq!(d.req.resource_names, vec!["c2".to_string()]);
        }
        WatchOutcome::Watching(_) => panic!("expected an immediate response"),
    }
}

#[test]
fn ads_consistency_blocks_response() {
    let mut cache = CacheState::new(true);
    cache.set_snapshot("N", snapshot("v1", &["c1", "c2"]));
    let (tx, _rx) = responder();
    let out = cache.create_watch(request("N", CLUSTER, "v0", &["c1"]), tx, &KnownResourceNames::new(), 1);
    assert!(matches!(out, WatchOutcome::Watching(_)));
}

#[test]
fn ads_consistent_request_is_answered() {
    let mut cache = CacheState::new(true);
    cache.set_snapshot("N", snapshot("v1", &["c1", "c2"]));
    let (tx, _rx) = responder();
    let out = cache.create_watch(request("N", CLUSTER, "v0", &["c1", "c2"]), tx, &KnownResourceNames::new(), 1);
    assert!(matches!(out, WatchOutcome::Respond(_)));
}

#[test]
fn stale_version_is_answered_immediately() {
    let mut cache = CacheState::new(false);
    cache.set_snapshot("N", snapshot("v1", &["c1"]));
    let (tx, _rx) = responder();
    match cache.create_watch(request("N", CLUSTER, "v0", &[]), tx, &KnownResourceNames::new(), 1) {
        WatchOutcome::Respond(d) => assert_eq!(d.response.version_info, "v1"),
        WatchOutcome::Watching(_) => panic!("expected an immediate response"),
    }
}

#[test]
fn cancel_before_push_sends_nothing() {
    let mut cache = CacheState::new(false);
    let (tx, _rx) = responder();
    let id = match cache.create_watch(request("N", CLUSTER, "", &[]), tx, &KnownResourceNames::new(), 1) {
        WatchOutcome::Watching(id) => id,
        WatchOutcome::Respond(_) => panic!("expected a watch"),
    };
    assert_eq!(id.node_id, "N");
    cache.cancel_watch(&id);
    assert_eq!(cache.set_snapshot("N", snapshot("v1", &["c1"])).len(), 0);
}

#[test]
fn cancel_is_idempotent_and_safe_on_unknown_ids() {
    let mut cache = CacheState::new(false);
    let (tx, _rx) = responder();
    let (tx2, _rx2) = responder();
    let id = match cache.create_watch(request("N", CLUSTER, "", &[]), tx, &KnownResourceNames::new(), 1) {
        WatchOutcome::Watching(id) => id,
        WatchOutcome::Respond(_) => panic!("expected a watch"),
    };
    let other = cache.create_watch(request("N", CLUSTER, "", &[]), tx2, &KnownResourceNames::new(), 1);
    assert!(matches!(other, WatchOutcome::Watching(_)));
    cache.cancel_watch(&id);
    cache.cancel_watch(&id);
    cache.cancel_watch(&xds_cache::watch::WatchId { node_id: "M".to_string(), index: 7, stamp: 0 });
    // the other watch is untouched
    assert_eq!(cache.set_snapshot("N", snapshot("v1", &["c1"])).len(), 1);
}

#[test]
fn fetch_outcomes() {
    let mut cache = CacheState::new(false);
    cache.set_snapshot("N", snapshot("v1", &["c1"]));
    assert!(matches!(cache.fetch(&request("N", CLUSTER, "v1", &[]), CLUSTER), Err(FetchError::VersionUpToDate)));
    match cache.fetch(&request("N", CLUSTER, "", &[]), CLUSTER) {
        Ok(resp) => {
            assert_eq!(resp.version_info, "v1");
            assert_eq!(payload_names(&resp), vec![b"c1".to_vec()]);
        }
        Err(e) => panic!("unexpected {:?}", e),
    }
    assert_eq!(cache.fetch(&request("M", CLUSTER, "", &[]), CLUSTER).err(), Some(FetchError::NotFound));
}

#[test]
fn fetch_after_push_selects_requested_names() {
    let mut cache = CacheState::new(false);
    cache.set_snapshot("N", snapshot("v3", &["a", "b", "c"]));
    let resp = cache.fetch(&request("N", CLUSTER, "v2", &["c", "a"]), CLUSTER).unwrap();
    assert_eq!(resp.version_info, "v3");
    assert_eq!(payload_names(&resp), vec![b"c".to_vec(), b"a".to_vec()]);
}

#[test]
fn push_for_unknown_type_discharges_with_empty_response() {
    let mut cache = CacheState::new(false);
    let (tx, _rx) = responder();
    let out = cache.create_watch(request("N", "type.googleapis.com/other", "v1", &[]), tx, &KnownResourceNames::new(), 1);
    assert!(matches!(out, WatchOutcome::Watching(_)));
    let sent = cache.set_snapshot("N", snapshot("v1", &["c1"]));
    assert_eq!(sent.len(), 1);
    assert_eq!(sent[0].response.version_info, "");
    assert!(sent[0].response.resources.is_empty());
}

#[test]
fn nodes_are_independent() {
    let mut cache = CacheState::new(false);
    let (tx, _rx) = responder();
    let out = cache.create_watch(request("A", CLUSTER, "", &[]), tx, &KnownResourceNames::new(), 1);
    assert!(matches!(out, WatchOutcome::Watching(_)));
    assert_eq!(cache.set_snapshot("B", snapshot("v1", &["c1"])).len(), 0);
    assert_eq!(cache.set_snapshot("A", snapshot("v1", &["c1"])).len(), 1);
}

#[test]
fn node_status_reports_last_request_time() {
    let mut cache = CacheState::new(false);
    let (tx, _rx) = responder();
    let (tx2, _rx2) = responder();
    cache.create_watch(request("A", CLUSTER, "", &[]), tx, &KnownResourceNames::new(), 5);
    cache.create_watch(request("A", CLUSTER, "", &[]), tx2, &KnownResourceNames::new(), 9);
    cache.set_snapshot("B", snapshot("v1", &[]));
    let status = cache.node_status();
    assert_eq!(status, vec![("A".to_string(), 9)]);
}

#[test]
fn request_without_node_uses_empty_id() {
    let mut cache = CacheState::new(false);
    cache.set_snapshot("", snapshot("v1", &["c1"]));
    let mut req = request("", CLUSTER, "", &[]);
    req.node = None;
    assert!(cache.fetch(&req, CLUSTER).is_ok());
}

#[test]
fn build_response_filters_in_request_order() {
    let b = bundle(&["a", "b"]);
    let req = request("N", CLUSTER, "", &["b", "x", "b"]);
    let resp = build_response(&req, Some(&b), "v9");
    assert_eq!(resp.version_info, "v9");
    assert_eq!(resp.type_url, CLUSTER);
    assert_eq!(payload_names(&resp), vec![b"b".to_vec(), b"b".to_vec()]);
    let all = build_response(&request("N", CLUSTER, "", &[]), Some(&b), "v9");
    assert_eq!(payload_names(&all), vec![b"a".to_vec(), b"b".to_vec()]);
    let none = build_response(&req, None, "v9");
    assert!(none.resources.is_empty());
}

#[test]
fn ads_consistency_predicate() {
    let b = bundle(&["c1", "c2"]);
    assert!(check_ads_consistency(&request("N", CLUSTER, "", &[]), Some(&b)));
    assert!(check_ads_consistency(&request("N", CLUSTER, "", &["c1"]), None));
    assert!(!check_ads_consistency(&request("N", CLUSTER, "", &["c1"]), Some(&b)));
    assert!(check_ads_consistency(&request("N", CLUSTER, "", &["c2", "c1"]), Some(&b)));
}

#[test]
fn requesting_new_resources_predicate() {
    let b = bundle(&["c1", "c2"]);
    let known = vec!["c1".to_string()];
    assert!(is_requesting_new_resources(&request("N", CLUSTER, "", &["c2"]), Some(&b), Some(&known)));
    assert!(!is_requesting_new_resources(&request("N", CLUSTER, "", &["c1"]), Some(&b), Some(&known)));
    assert!(!is_requesting_new_resources(&request("N", CLUSTER, "", &["c3"]), Some(&b), Some(&known)));
    assert!(!is_requesting_new_resources(&request("N", CLUSTER, "", &["c2"]), Some(&b), None));
    assert!(!is_requesting_new_resources(&request("N", CLUSTER, "", &["c2"]), None, Some(&known)));
}

#[test]
fn snapshot_lookups() {
    let s = snapshot("v1", &["c1"]);
    assert_eq!(s.version(CLUSTER), "v1");
    assert_eq!(s.version("unknown"), "");
    assert!(s.resources(CLUSTER).is_some());
    assert!(s.resources("unknown").is_none());
    let b = s.resources(CLUSTER).unwrap();
    assert_eq!(b.len(), 1);
    assert!(b.contains_key("c1"));
    assert!(b.get("c2").is_none());
}

#[test]
fn resource_insert_replaces_same_name() {
    let mut b = bundle(&["a"]);
    b.insert(Resource { name: "a".to_string(), type_url: CLUSTER.to_string(), value: vec![7] });
    assert_eq!(b.len(), 1);
    assert_eq!(b.get("a").unwrap().value, vec![7]);
    let any = b.get("a").unwrap().into_any();
    assert_eq!(any.type_url, CLUSTER);
    assert_eq!(any.value, vec![7]);
}

#[test]
fn snapshot_set_replaces_type() {
    let mut s = snapshot("v1", &["c1"]);
    s.set(CLUSTER.to_string(), "v2".to_string(), bundle(&["c1", "c2"]));
    assert_eq!(s.version(CLUSTER), "v2");
    assert_eq!(s.resources(CLUSTER).unwrap().len(), 2);
}

#[test]
fn known_names_by_type() {
    let mut known = KnownResourceNames::new();
    assert!(known.get(CLUSTER).is_none());
    known.insert(CLUSTER.to_string(), vec!["a".to_string()]);
    known.insert(CLUSTER.to_string(), vec!["b".to_string()]);
    assert_eq!(known.get(CLUSTER).unwrap(), &vec!["b".to_string()]);
    assert!(known.get("other").is_none());
}

#[test]
fn request_time_never_goes_back() {
    let mut cache = CacheState::new(false);
    let (tx, _rx) = responder();
    let (tx2, _rx2) = responder();
    cache.create_watch(request("A", CLUSTER, "", &[]), tx, &KnownResourceNames::new(), 9);
    cache.create_watch(request("A", CLUSTER, "", &[]), tx2, &KnownResourceNames::new(), 5);
    assert_eq!(cache.node_status(), vec![("A".to_string(), 9)]);
}

#[test]
fn push_answers_each_watch_on_its_own_channel() {
    let mut cache = CacheState::new(false);
    let (tx_a, mut rx_a) = responder();
    let (tx_b, mut rx_b) = responder();
    let other = "type.googleapis.com/other";
    let a = cache.create_watch(request("N", CLUSTER, "", &[]), tx_a.clone(), &KnownResourceNames::new(), 1);
    assert!(matches!(a, WatchOutcome::Watching(_)));
    let mut s0 = Snapshot::new();
    s0.set(other.to_string(), "v0".to_string(), bundle(&[]));
    cache.set_snapshot("N", s0);
    let b = cache.create_watch(request("N", other, "v0", &[]), tx_b.clone(), &KnownResourceNames::new(), 2);
    assert!(matches!(b, WatchOutcome::Watching(_)));
    let mut s = snapshot("v1", &["c1"]);
    s.set(other.to_string(), "v0".to_string(), bundle(&[]));
    let sent = cache.set_snapshot("N", s);
    assert_eq!(sent.len(), 1);
    assert!(sent[0].tx.same_channel(&tx_a));
    assert!(!sent[0].tx.same_channel(&tx_b));
    for d in sent {
        d.tx.try_send((d.req, d.response)).unwrap();
    }
    assert_eq!(rx_a.try_recv().unwrap().1.version_info, "v1");
    assert!(rx_b.try_recv().is_err());
}

#[test]
fn bundle_names_stay_unique() {
    let mut b = bundle(&["a", "b", "a"]);
    b.insert(resource("b"));
    assert_eq!(b.len(), 2);
}

#[test]
fn stale_id_does_not_cancel_watch_in_reused_slot() {
    let mut cache = CacheState::new(false);
    let (tx_a, _rx_a) = responder();
    let (tx_b, _rx_b) = responder();
    let id_a = match cache.create_watch(request("N", CLUSTER, "", &[]), tx_a, &KnownResourceNames::new(), 1) {
        WatchOutcome::Watching(id) => id,
        WatchOutcome::Respond(_) => panic!("expected a watch"),
    };
    assert_eq!(cache.set_snapshot("N", snapshot("v1", &["c1"])).len(), 1);
    let id_b = match cache.create_watch(request("N", CLUSTER, "v1", &[]), tx_b.clone(), &KnownResourceNames::new(), 2) {
        WatchOutcome::Watching(id) => id,
        WatchOutcome::Respond(_) => panic!("expected a watch"),
    };
    assert_eq!(id_b.index, id_a.index);
    assert_ne!(id_b.stamp, id_a.stamp);
    cache.cancel_watch(&id_a);
    let sent = cache.set_snapshot("N", snapshot("v2", &["c1"]));
    assert_eq!(sent.len(), 1);
    assert!(sent[0].tx.same_channel(&tx_b));
    cache.cancel_watch(&id_b);
    assert_eq!(cache.set_snapshot("N", snapshot("v3", &["c1"])).len(), 0);
}

#[test]
fn copied_bundle_keeps_resources() {
    let b = bundle(&["a", "b"]);
    let c = b.clone();
    assert_eq!(c.len(), 2);
    assert_eq!(c.get("b").unwrap().value, b"b".to_vec());
}
