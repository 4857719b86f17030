//! Building discovery responses, and the two predicates that decide whether to answer now.
use vstd::prelude::*;
use crate::discovery::{any_views, DiscoveryRequest, DiscoveryResponse, RequestView};
use crate::snapshot::{any_of, has_resource, lookup_resource, ResourceView, Resources};
use crate::text::contains_str;

verus! {

/// The view of an optional borrowed bundle.
pub open spec fn bundle_view(b: Option<&Resources>) -> Option<Seq<ResourceView>> {
    match b {
        Some(r) => Some(r@),
        None => None,
    }
}

/// The payloads of the named resources, in the order of `names`; names the bundle lacks add nothing.
pub open spec fn selected(names: Seq<Seq<char>>, items: Seq<ResourceView>) -> Seq<
    (Seq<char>, Seq<u8>),
>
    decreases names.len(),
{
    if names.len() == 0 {
        Seq::empty()
    } else {
        let rest = selected(names.drop_last(), items);
        match lookup_resource(items, names.last()) {
            Some(r) => rest.push(any_of(r)),
            None => rest,
        }
    }
}

/// The payloads a response carries: every resource when no names are requested,
/// else the requested ones; nothing without a bundle.
pub open spec fn filtered(names: Seq<Seq<char>>, bundle: Option<Seq<ResourceView>>) -> Seq<
    (Seq<char>, Seq<u8>),
> {
    match bundle {
        None => Seq::empty(),
        Some(items) => if names.len() == 0 {
            items.map_values(|r: ResourceView| any_of(r))
        } else {
            selected(names, items)
        },
    }
}

/// `resp` is the response built for `req` over `bundle` at `version`.
pub open spec fn is_response(
    resp: DiscoveryResponse,
    req: RequestView,
    bundle: Option<Seq<ResourceView>>,
    version: Seq<char>,
) -> bool {
    &&& resp.type_url@ == req.type_url
    &&& resp.nonce@ == Seq::<char>::empty()
    &&& resp.version_info@ == version
    &&& any_views(resp.resources@) == filtered(req.resource_names, bundle)
    &&& resp.control_plane.is_none()
    &&& !resp.canary
}

/// Assembles the response to `req` from a bundle and a version.
pub fn build_response(req: &DiscoveryRequest, resources: Option<&Resources>, version: &str) -> (r:
    DiscoveryResponse)
    ensures
        is_response(r, req@, bundle_view(resources), version@),
{
    let mut out: Vec<crate::discovery::Any> = Vec::new();
    let ghost names = req@.resource_names;
    if let Some(bundle) = resources {
        if req.resource_names.len() == 0 {
            let mut i: usize = 0;
            while i < bundle.len()
                invariant
                    i <= bundle@.len(),
                    any_views(out@) == bundle@.subrange(0, i as int).map_values(
                        |r: ResourceView| any_of(r),
                    ),
                decreases bundle@.len() - i,
            {
                let ghost before = out@;
                let res = bundle.at(i);
                out.push(res.into_any());
                assert(any_views(out@) =~= any_views(before).push(any_of(res@)));
                assert(bundle@.subrange(0, i + 1).map_values(|r: ResourceView| any_of(r))
                    =~= bundle@.subrange(0, i as int).map_values(|r: ResourceView| any_of(r)).push(
                    any_of(bundle@[i as int]),
                ));
                i = i + 1;
            }
            assert(bundle@.subrange(0, bundle@.len() as int) =~= bundle@);
        } else {
            let mut i: usize = 0;
            while i < req.resource_names.len()
                invariant
                    names == req@.resource_names,
                    names.len() == req.resource_names@.len(),
                    i <= names.len(),
                    any_views(out@) == selected(names.subrange(0, i as int), bundle@),
                decreases names.len() - i,
            {
                let ghost before = out@;
                assert(names.subrange(0, i + 1).drop_last() =~= names.subrange(0, i as int));
                match bundle.get(req.resource_names[i].as_str()) {
                    Some(res) => {
                        out.push(res.into_any());
                        assert(any_views(out@) =~= any_views(before).push(any_of(res@)));
                    },
                    None => {},
                }
                i = i + 1;
            }
            assert(names.subrange(0, names.len() as int) =~= names);
        }
    } else {
        assert(any_views(out@) =~= Seq::empty());
    }
    let r = DiscoveryResponse {
        version_info: version.to_owned(),
        resources: out,
        canary: false,
        type_url: req.type_url.clone(),
        nonce: String::new(),
        control_plane: None,
    };
    r
}

/// Under ADS, whether answering now is consistent: no requested name set, no bundle,
/// or every resource of the bundle is among the requested names.
pub open spec fn ads_consistent(req: RequestView, bundle: Option<Seq<ResourceView>>) -> bool {
    match bundle {
        Some(items) => !(req.resource_names.len() > 0 && exists|i: int|
            0 <= i < items.len() && !req.resource_names.contains(#[trigger] items[i].name)),
        None => true,
    }
}

/// Whether responding now keeps an ADS stream consistent.
pub fn check_ads_consistency(req: &DiscoveryRequest, resources: Option<&Resources>) -> (r: bool)
    ensures
        r == ads_consistent(req@, bundle_view(resources)),
{
    if req.resource_names.len() != 0 {
        if let Some(bundle) = resources {
            let mut i: usize = 0;
            while i < bundle.len()
                invariant
                    i <= bundle@.len(),
                    resources == Some(bundle),
                    req@.resource_names.len() > 0,
                    forall|j: int|
                        0 <= j < i ==> req@.resource_names.contains(#[trigger] bundle@[j].name),
                decreases bundle@.len() - i,
            {
                let res = bundle.at(i);
                if !contains_str(&req.resource_names, res.name.as_str()) {
                    let ghost items = bundle@;
                    assert(!req@.resource_names.contains(items[i as int].name));
                    assert(exists|k: int|
                        0 <= k < items.len() && !req@.resource_names.contains(
                            #[trigger] items[k].name,
                        ));
                    assert(!ads_consistent(req@, Some(items)));
                    return false;
                }
                i = i + 1;
            }
        }
    }
    true
}

/// The client asks for a name it has not received and that the bundle holds.
pub open spec fn requests_new_resources(
    req: RequestView,
    bundle: Option<Seq<ResourceView>>,
    known: Option<Seq<Seq<char>>>,
) -> bool {
    match (bundle, known) {
        (Some(items), Some(ks)) => exists|j: int|
            0 <= j < req.resource_names.len() && !ks.contains(#[trigger] req.resource_names[j])
                && has_resource(items, req.resource_names[j]),
        _ => false,
    }
}

/// Whether the request widens the client's interest to resources it has not received.
pub fn is_requesting_new_resources(
    req: &DiscoveryRequest,
    resources: Option<&Resources>,
    known: Option<&Vec<String>>,
) -> (r: bool)
    ensures
        r == requests_new_resources(
            req@,
            bundle_view(resources),
            match known {
                Some(v) => Some(crate::discovery::str_views(v@)),
                None => None,
            },
        ),
{
    if let Some(bundle) = resources {
        if let Some(ks) = known {
            let ghost names = req@.resource_names;
            let mut i: usize = 0;
            while i < req.resource_names.len()
                invariant
                    names == req@.resource_names,
                    names.len() == req.resource_names@.len(),
                    i <= names.len(),
                    resources == Some(bundle),
                    known == Some(ks),
                    forall|j: int|
                        0 <= j < i ==> !(!crate::discovery::str_views(ks@).contains(
                            #[trigger] names[j],
                        ) && has_resource(bundle@, names[j])),
                decreases names.len() - i,
            {
                let name = req.resource_names[i].as_str();
                if !contains_str(ks, name) && bundle.contains_key(name) {
                    assert(names[i as int] == name@);
                    assert(!crate::discovery::str_views(ks@).contains(names[i as int])
                        && has_resource(bundle@, names[i as int]));
                    return true;
                }
                i = i + 1;
            }
        }
    }
    false
}

} // verus!
