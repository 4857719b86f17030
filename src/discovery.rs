//! Discovery request and response messages, as far as the cache reads and writes them.
use vstd::prelude::*;

verus! {

/// The client's node envelope.
#[derive(Clone, Debug)]
pub struct Node {
    pub id: String,
    pub cluster: String,
}

/// Error details that a client attaches to a NACK.
#[derive(Clone, Debug)]
pub struct ErrorDetail {
    pub code: i32,
    pub message: String,
}

#[derive(Clone, Debug)]
pub struct DiscoveryRequest {
    pub version_info: String,
    pub node: Option<Node>,
    pub resource_names: Vec<String>,
    pub type_url: String,
    pub response_nonce: String,
    pub error_detail: Option<ErrorDetail>,
}

/// What the cache reads of a request.
pub struct RequestView {
    pub version_info: Seq<char>,
    pub node_id: Seq<char>,
    pub resource_names: Seq<Seq<char>>,
    pub type_url: Seq<char>,
}

pub open spec fn str_views(v: Seq<String>) -> Seq<Seq<char>> {
    v.map_values(|s: String| s@)
}

impl View for DiscoveryRequest {
    type V = RequestView;

    open spec fn view(&self) -> RequestView {
        RequestView {
            version_info: self.version_info@,
            node_id: match self.node {
                Some(n) => n.id@,
                None => Seq::empty(),
            },
            resource_names: str_views(self.resource_names@),
            type_url: self.type_url@,
        }
    }
}

/// A typed payload placed into a response: its type URL and its encoded bytes.
#[derive(Clone, Debug)]
pub struct Any {
    pub type_url: String,
    pub value: Vec<u8>,
}

impl View for Any {
    type V = (Seq<char>, Seq<u8>);

    open spec fn view(&self) -> (Seq<char>, Seq<u8>) {
        (self.type_url@, self.value@)
    }
}

/// Identifies the control plane that produced a response.
#[derive(Clone, Debug)]
pub struct ControlPlane {
    pub identifier: String,
}

#[derive(Clone, Debug)]
pub struct DiscoveryResponse {
    pub version_info: String,
    pub resources: Vec<Any>,
    pub canary: bool,
    pub type_url: String,
    pub nonce: String,
    pub control_plane: Option<ControlPlane>,
}

pub open spec fn any_views(v: Seq<Any>) -> Seq<(Seq<char>, Seq<u8>)> {
    v.map_values(|a: Any| a@)
}

/// The node identity of a request: the envelope's id, or "" without an envelope.
pub fn hash_id(node: &Option<Node>) -> (r: String)
    ensures
        r@ == match node {
            Some(n) => n.id@,
            None => Seq::<char>::empty(),
        },
{
    match node {
        Some(n) => n.id.clone(),
        None => String::new(),
    }
}

/// A copy of a byte vector.
pub fn copy_bytes(v: &Vec<u8>) -> (r: Vec<u8>)
    ensures
        r@ == v@,
{
    let mut r: Vec<u8> = Vec::new();
    let mut i: usize = 0;
    while i < v.len()
        invariant
            i <= v@.len(),
            r@ == v@.subrange(0, i as int),
        decreases v@.len() - i,
    {
        r.push(v[i]);
        i = i + 1;
        assert(r@ =~= v@.subrange(0, i as int));
    }
    assert(v@.subrange(0, v@.len() as int) =~= v@);
    r
}

} // verus!
