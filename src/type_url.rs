//! The registry of xDS resource type URLs.
use vstd::prelude::*;
use crate::text::str_eq;

verus! {

pub const ENDPOINT: &'static str = "type.googleapis.com/envoy.config.endpoint.v3.ClusterLoadAssignment";
pub const CLUSTER: &'static str = "type.googleapis.com/envoy.config.cluster.v3.Cluster";
pub const ROUTE: &'static str = "type.googleapis.com/envoy.config.route.v3.RouteConfiguration";
pub const VIRTUAL_HOST: &'static str = "type.googleapis.com/envoy.config.route.v3.VirtualHost";
pub const LISTENER: &'static str = "type.googleapis.com/envoy.config.listener.v3.Listener";
pub const SECRET: &'static str = "type.googleapis.com/envoy.extensions.transport_sockets.tls.v3.Secret";
pub const RUNTIME: &'static str = "type.googleapis.com/envoy.service.runtime.v3.Runtime";
pub const SCOPED_ROUTE: &'static str = "type.googleapis.com/envoy.config.route.v3.ScopedRouteConfiguration";
pub const EXTENSION_CONFIG: &'static str = "type.googleapis.com/envoy.config.core.v3.TypedExtensionConfig";

/// The type URL that stands for an aggregated (ADS) stream.
pub const ANY_TYPE: &'static str = "";

/// `seg` is what follows the last '.' of `s` (all of `s` when it has no '.').
pub open spec fn is_last_segment(s: Seq<char>, seg: Seq<char>) -> bool {
    exists|start: int|
        0 <= start <= s.len() && seg == s.subrange(start, s.len() as int) && (start == 0 || s[start
            - 1] == '.') && (forall|j: int| start <= j < s.len() ==> s[j] != '.')
}

/// Short display form of a type URL: "ADS" for the empty URL, else its last dot-segment.
pub fn shorten(type_url: &str) -> (r: &str)
    ensures
        type_url@.len() == 0 ==> r@ == "ADS"@,
        type_url@.len() > 0 ==> is_last_segment(type_url@, r@),
{
    let n = type_url.unicode_len();
    if n == 0 {
        return "ADS";
    }
    let mut i: usize = n;
    while i > 0
        invariant
            n == type_url@.len(),
            i <= n,
            forall|j: int| i <= j < n ==> type_url@[j] != '.',
        ensures
            i == 0 || type_url@[i - 1] == '.',
        decreases i,
    {
        if type_url.get_char(i - 1) == '.' {
            break;
        }
        i = i - 1;
    }
    let r = type_url.substring_char(i, n);
    assert(is_last_segment(type_url@, r@)) by {
        assert(r@ == type_url@.subrange(i as int, n as int));
    }
    r
}

/// The ADS warm-up rank of a type URL; unknown URLs rank last.
pub open spec fn priority_of(t: Seq<char>) -> u8 {
    if t == CLUSTER@ {
        0
    } else if t == ENDPOINT@ {
        1
    } else if t == LISTENER@ {
        2
    } else if t == ROUTE@ {
        3
    } else if t == VIRTUAL_HOST@ {
        4
    } else if t == SECRET@ {
        5
    } else if t == RUNTIME@ {
        6
    } else if t == SCOPED_ROUTE@ {
        7
    } else if t == EXTENSION_CONFIG@ {
        8
    } else {
        9
    }
}

/// Priority used to order resource types during ADS warm-up.
pub fn priority(type_url: &str) -> (r: u8)
    ensures
        r == priority_of(type_url@),
        r <= 9,
{
    if str_eq(type_url, CLUSTER) {
        0
    } else if str_eq(type_url, ENDPOINT) {
        1
    } else if str_eq(type_url, LISTENER) {
        2
    } else if str_eq(type_url, ROUTE) {
        3
    } else if str_eq(type_url, VIRTUAL_HOST) {
        4
    } else if str_eq(type_url, SECRET) {
        5
    } else if str_eq(type_url, RUNTIME) {
        6
    } else if str_eq(type_url, SCOPED_ROUTE) {
        7
    } else if str_eq(type_url, EXTENSION_CONFIG) {
        8
    } else {
        9
    }
}

} // verus!
