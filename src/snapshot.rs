//! Resources, per-type resource bundles, and the per-node configuration snapshot.
use vstd::prelude::*;
use crate::discovery::{copy_bytes, str_views, Any};
use crate::keys::{first_index, lemma_first_index_is};
use crate::text::str_eq;

verus! {

/// One named resource with its encoded payload.
#[derive(Clone, Debug)]
pub struct Resource {
    pub name: String,
    pub type_url: String,
    pub value: Vec<u8>,
}

pub struct ResourceView {
    pub name: Seq<char>,
    pub type_url: Seq<char>,
    pub value: Seq<u8>,
}

impl View for Resource {
    type V = ResourceView;

    open spec fn view(&self) -> ResourceView {
        ResourceView { name: self.name@, type_url: self.type_url@, value: self.value@ }
    }
}

/// The payload that a resource puts into a response.
pub open spec fn any_of(r: ResourceView) -> (Seq<char>, Seq<u8>) {
    (r.type_url, r.value)
}

impl Resource {
    /// The wire envelope of this resource.
    pub fn into_any(&self) -> (r: Any)
        ensures
            r@ == any_of(self@),
    {
        Any { type_url: self.type_url.clone(), value: copy_bytes(&self.value) }
    }
}

pub open spec fn resource_views(v: Seq<Resource>) -> Seq<ResourceView> {
    v.map_values(|r: Resource| r@)
}

pub open spec fn resource_names(items: Seq<ResourceView>) -> Seq<Seq<char>> {
    items.map_values(|r: ResourceView| r.name)
}

/// The resource of a bundle named `name`, if any.
pub open spec fn lookup_resource(items: Seq<ResourceView>, name: Seq<char>) -> Option<
    ResourceView,
> {
    let p = first_index(resource_names(items), name);
    if p == -1 {
        None
    } else {
        Some(items[p])
    }
}

/// No two resources of a bundle share a name.
pub open spec fn names_unique(items: Seq<ResourceView>) -> bool {
    forall|i: int, j: int| 0 <= i < j < items.len() ==> items[i].name != items[j].name
}

/// Whether a bundle holds a resource named `name`.
pub open spec fn has_resource(items: Seq<ResourceView>, name: Seq<char>) -> bool {
    exists|i: int| 0 <= i < items.len() && items[i].name == name
}

/// The resources of one type, keyed by name.
#[derive(Debug)]
pub struct Resources {
    items: Vec<Resource>,
}

impl View for Resources {
    type V = Seq<ResourceView>;

    closed spec fn view(&self) -> Seq<ResourceView> {
        resource_views(self.items@)
    }
}

impl Resource {
    /// A copy of this resource.
    pub fn copy(&self) -> (r: Resource)
        ensures
            r@ == self@,
    {
        Resource {
            name: self.name.clone(),
            type_url: self.type_url.clone(),
            value: copy_bytes(&self.value),
        }
    }
}

impl Clone for Resources {
    fn clone(&self) -> Self {
        self.copy()
    }
}

impl Resources {
    /// A copy of this bundle.
    pub fn copy(&self) -> (r: Resources)
        ensures
            r@ == self@,
    {
        proof {
            use_type_invariant(self);
        }
        let mut items: Vec<Resource> = Vec::new();
        let mut i: usize = 0;
        while i < self.items.len()
            invariant
                i <= self@.len(),
                resource_views(items@) == self@.subrange(0, i as int),
            decreases self@.len() - i,
        {
            let ghost before = resource_views(items@);
            let c = self.items[i].copy();
            assert(c@ == self@[i as int]);
            items.push(c);
            assert(resource_views(items@) =~= before.push(self@[i as int]));
            assert(self@.subrange(0, i + 1) =~= self@.subrange(0, i as int).push(self@[i as int]));
            i = i + 1;
        }
        assert(self@.subrange(0, self@.len() as int) =~= self@);
        Resources { items }
    }

    /// A bundle never holds two resources of one name.
    #[verifier::type_invariant]
    spec fn inv(&self) -> bool {
        names_unique(resource_views(self.items@))
    }

    pub fn new() -> (r: Resources)
        ensures
            r@ == Seq::<ResourceView>::empty(),
            names_unique(r@),
    {
        Resources { items: Vec::new() }
    }

    pub fn len(&self) -> (r: usize)
        ensures
            r == self@.len(),
            names_unique(self@),
    {
        proof {
            use_type_invariant(self);
        }
        self.items.len()
    }

    /// The resource at a position of the bundle.
    pub fn at(&self, i: usize) -> (r: &Resource)
        requires
            i < self@.len(),
        ensures
            r@ == self@[i as int],
            names_unique(self@),
    {
        proof {
            use_type_invariant(self);
        }
        &self.items[i]
    }

    /// Position of the resource named `name`.
    fn find(&self, name: &str) -> (r: Option<usize>)
        ensures
            match r {
                Some(i) => i < self@.len() && first_index(resource_names(self@), name@) == i,
                None => first_index(resource_names(self@), name@) == -1,
            },
    {
        let ghost names = resource_names(self@);
        let mut i: usize = 0;
        while i < self.items.len()
            invariant
                names == resource_names(self@),
                i <= self@.len(),
                forall|j: int| 0 <= j < i ==> names[j] != name@,
            decreases self@.len() - i,
        {
            if str_eq(self.items[i].name.as_str(), name) {
                proof {
                    lemma_first_index_is(names, name@, i as int);
                }
                return Some(i);
            }
            i = i + 1;
        }
        proof {
            lemma_first_index_is(names, name@, -1);
        }
        None
    }

    /// The resource named `name`.
    pub fn get(&self, name: &str) -> (r: Option<&Resource>)
        ensures
            match r {
                Some(res) => lookup_resource(self@, name@) == Some(res@),
                None => lookup_resource(self@, name@).is_none(),
            },
            names_unique(self@),
    {
        proof {
            use_type_invariant(self);
        }
        match self.find(name) {
            Some(i) => Some(&self.items[i]),
            None => None,
        }
    }

    /// Whether a resource named `name` is present.
    pub fn contains_key(&self, name: &str) -> (r: bool)
        ensures
            r == has_resource(self@, name@),
            names_unique(self@),
    {
        proof {
            use_type_invariant(self);
        }
        let mut i: usize = 0;
        while i < self.items.len()
            invariant
                i <= self@.len(),
                names_unique(self@),
                forall|j: int| 0 <= j < i ==> self@[j].name != name@,
            decreases self@.len() - i,
        {
            if str_eq(self.items[i].name.as_str(), name) {
                assert(self@[i as int].name == name@);
                return true;
            }
            i = i + 1;
        }
        false
    }

    /// Adds a resource, replacing the one of the same name.
    pub fn insert(&mut self, res: Resource)
        ensures
            first_index(resource_names(old(self)@), res.name@) == -1 ==> final(self)@ == old(
                self,
            )@.push(res@),
            first_index(resource_names(old(self)@), res.name@) != -1 ==> final(self)@ == old(
                self,
            )@.update(first_index(resource_names(old(self)@), res.name@), res@),
            names_unique(final(self)@),
    {
        proof {
            use_type_invariant(&*self);
            crate::keys::lemma_first_index(resource_names(old(self)@), res.name@);
        }
        let ghost ov = old(self)@;
        let ghost rv = res@;
        let found = self.find(res.name.as_str());
        let mut items: Vec<Resource> = Vec::new();
        core::mem::swap(&mut self.items, &mut items);
        assert(resource_views(items@) == ov);
        assert(forall|j: int| 0 <= j < ov.len() ==> ov[j].name == resource_names(ov)[j]);
        match found {
            Some(i) => {
                items.set(i, res);
                let ghost nv = resource_views(items@);
                assert(nv =~= ov.update(i as int, rv));
                assert(resource_names(nv) =~= resource_names(ov));
                assert forall|a: int, b: int| 0 <= a < b < nv.len() implies nv[a].name
                    != nv[b].name by {
                    assert(nv[a].name == resource_names(ov)[a]);
                    assert(nv[b].name == resource_names(ov)[b]);
                }
            },
            None => {
                items.push(res);
                let ghost nv = resource_views(items@);
                assert(nv =~= ov.push(rv));
                assert forall|a: int, b: int| 0 <= a < b < nv.len() implies nv[a].name
                    != nv[b].name by {
                    if b == ov.len() {
                        assert(resource_names(ov)[a] != rv.name);
                    } else {
                        assert(ov[a].name != ov[b].name);
                    }
                }
            },
        }
        core::mem::swap(&mut self.items, &mut items);
    }
}

/// The bundle and version of one resource type in a snapshot.
#[derive(Clone, Debug)]
pub struct TypeEntry {
    pub type_url: String,
    pub version: String,
    pub resources: Resources,
}

pub struct TypeEntryView {
    pub type_url: Seq<char>,
    pub version: Seq<char>,
    pub resources: Seq<ResourceView>,
}

impl View for TypeEntry {
    type V = TypeEntryView;

    open spec fn view(&self) -> TypeEntryView {
        TypeEntryView {
            type_url: self.type_url@,
            version: self.version@,
            resources: self.resources@,
        }
    }
}

pub type SnapshotView = Seq<TypeEntryView>;

pub open spec fn entry_types(s: SnapshotView) -> Seq<Seq<char>> {
    s.map_values(|e: TypeEntryView| e.type_url)
}

/// The version of a type in a snapshot; empty for a type it does not hold.
pub open spec fn version_of(s: SnapshotView, t: Seq<char>) -> Seq<char> {
    let p = first_index(entry_types(s), t);
    if p == -1 {
        Seq::empty()
    } else {
        s[p].version
    }
}

/// The bundle of a type in a snapshot; none for a type it does not hold.
pub open spec fn resources_of(s: SnapshotView, t: Seq<char>) -> Option<Seq<ResourceView>> {
    let p = first_index(entry_types(s), t);
    if p == -1 {
        None
    } else {
        Some(s[p].resources)
    }
}

/// An immutable bundle of configuration: for each resource type, its resources and version.
#[derive(Clone, Debug)]
pub struct Snapshot {
    entries: Vec<TypeEntry>,
}

impl View for Snapshot {
    type V = SnapshotView;

    closed spec fn view(&self) -> SnapshotView {
        self.entries@.map_values(|e: TypeEntry| e@)
    }
}

impl Snapshot {
    pub fn new() -> (r: Snapshot)
        ensures
            r@ == Seq::<TypeEntryView>::empty(),
    {
        Snapshot { entries: Vec::new() }
    }

    fn find(&self, type_url: &str) -> (r: Option<usize>)
        ensures
            match r {
                Some(i) => i < self@.len() && first_index(entry_types(self@), type_url@) == i,
                None => first_index(entry_types(self@), type_url@) == -1,
            },
    {
        let ghost types = entry_types(self@);
        let mut i: usize = 0;
        while i < self.entries.len()
            invariant
                types == entry_types(self@),
                i <= self@.len(),
                forall|j: int| 0 <= j < i ==> types[j] != type_url@,
            decreases self@.len() - i,
        {
            if str_eq(self.entries[i].type_url.as_str(), type_url) {
                proof {
                    lemma_first_index_is(types, type_url@, i as int);
                }
                return Some(i);
            }
            i = i + 1;
        }
        proof {
            lemma_first_index_is(types, type_url@, -1);
        }
        None
    }

    /// Sets the resources and version of one type, replacing what it had.
    pub fn set(&mut self, type_url: String, version: String, resources: Resources)
        ensures
            forall|t: Seq<char>|
                #![trigger version_of(final(self)@, t)]
                #![trigger resources_of(final(self)@, t)]
                if t == type_url@ {
                    version_of(final(self)@, t) == version@ && resources_of(final(self)@, t)
                        == Some(resources@)
                } else {
                    version_of(final(self)@, t) == version_of(old(self)@, t) && resources_of(
                        final(self)@,
                        t,
                    ) == resources_of(old(self)@, t)
                },
    {
        let ghost tu = type_url@;
        let e = TypeEntry { type_url, version, resources };
        let ghost ev = e@;
        match self.find(e.type_url.as_str()) {
            Some(i) => {
                self.entries.set(i, e);
                assert(self@ =~= old(self)@.update(i as int, ev));
                proof {
                    crate::keys::lemma_first_index(entry_types(old(self)@), tu);
                }
                assert(entry_types(self@) =~= entry_types(old(self)@));
                assert forall|t: Seq<char>| true implies if t == tu {
                    version_of(self@, t) == ev.version && resources_of(self@, t) == Some(
                        ev.resources,
                    )
                } else {
                    version_of(self@, t) == version_of(old(self)@, t) && resources_of(self@, t)
                        == resources_of(old(self)@, t)
                } by {
                    crate::keys::lemma_first_index(entry_types(old(self)@), t);
                }
            },
            None => {
                self.entries.push(e);
                assert(self@ =~= old(self)@.push(ev));
                assert(entry_types(self@) =~= entry_types(old(self)@).push(tu));
                assert forall|t: Seq<char>| true implies if t == tu {
                    version_of(self@, t) == ev.version && resources_of(self@, t) == Some(
                        ev.resources,
                    )
                } else {
                    version_of(self@, t) == version_of(old(self)@, t) && resources_of(self@, t)
                        == resources_of(old(self)@, t)
                } by {
                    crate::keys::lemma_first_index_push(entry_types(old(self)@), tu, t);
                    crate::keys::lemma_first_index(entry_types(old(self)@), t);
                }
            },
        }
    }

    /// The version of a type; empty when the snapshot does not hold it.
    pub fn version(&self, type_url: &str) -> (r: &str)
        ensures
            r@ == version_of(self@, type_url@),
    {
        match self.find(type_url) {
            Some(i) => self.entries[i].version.as_str(),
            None => {
                proof {
                    reveal_strlit("");
                }
                ""
            },
        }
    }

    /// The bundle of a type; none when the snapshot does not hold it.
    pub fn resources(&self, type_url: &str) -> (r: Option<&Resources>)
        ensures
            match r {
                Some(b) => resources_of(self@, type_url@) == Some(b@) && names_unique(b@),
                None => resources_of(self@, type_url@).is_none(),
            },
    {
        match self.find(type_url) {
            Some(i) => {
                let b = &self.entries[i].resources;
                proof {
                    use_type_invariant(b);
                }
                Some(b)
            },
            None => None,
        }
    }
}

} // verus!
