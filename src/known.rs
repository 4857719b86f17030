//! The resource names that a stream has already delivered to its client, per type.
use vstd::prelude::*;
use crate::discovery::str_views;
use crate::keys::{first_index, lemma_first_index, lemma_first_index_is, lemma_first_index_push};
use crate::text::str_eq;

verus! {

#[derive(Clone, Debug)]
struct KnownEntry {
    type_url: String,
    names: Vec<String>,
}

pub type KnownView = Seq<(Seq<char>, Seq<Seq<char>>)>;

pub open spec fn known_types(k: KnownView) -> Seq<Seq<char>> {
    k.map_values(|e: (Seq<char>, Seq<Seq<char>>)| e.0)
}

/// The names known for a type, if the stream tracks that type.
pub open spec fn known_of(k: KnownView, t: Seq<char>) -> Option<Seq<Seq<char>>> {
    let p = first_index(known_types(k), t);
    if p == -1 {
        None
    } else {
        Some(k[p].1)
    }
}

/// Per type URL, the names of the resources the client has received.
#[derive(Clone, Debug)]
pub struct KnownResourceNames {
    entries: Vec<KnownEntry>,
}

impl View for KnownResourceNames {
    type V = KnownView;

    closed spec fn view(&self) -> KnownView {
        self.entries@.map_values(|e: KnownEntry| (e.type_url@, str_views(e.names@)))
    }
}

impl KnownResourceNames {
    pub fn new() -> (r: KnownResourceNames)
        ensures
            forall|t: Seq<char>| #[trigger] known_of(r@, t).is_none(),
    {
        let r = KnownResourceNames { entries: Vec::new() };
        assert forall|t: Seq<char>| #[trigger] known_of(r@, t).is_none() by {
            lemma_first_index(known_types(r@), t);
        }
        r
    }

    fn find(&self, type_url: &str) -> (r: Option<usize>)
        ensures
            match r {
                Some(i) => i < self@.len() && first_index(known_types(self@), type_url@) == i,
                None => first_index(known_types(self@), type_url@) == -1,
            },
    {
        let ghost types = known_types(self@);
        let mut i: usize = 0;
        while i < self.entries.len()
            invariant
                types == known_types(self@),
                i <= self@.len(),
                forall|j: int| 0 <= j < i ==> types[j] != type_url@,
            decreases self@.len() - i,
        {
            if str_eq(self.entries[i].type_url.as_str(), type_url) {
                proof {
                    lemma_first_index_is(types, type_url@, i as int);
                }
                return Some(i);
            }
            i = i + 1;
        }
        proof {
            lemma_first_index_is(types, type_url@, -1);
        }
        None
    }

    /// Records the names known for a type, replacing what was recorded for it.
    pub fn insert(&mut self, type_url: String, names: Vec<String>)
        ensures
            forall|t: Seq<char>| #[trigger]
                known_of(final(self)@, t) == if t == type_url@ {
                    Some(str_views(names@))
                } else {
                    known_of(old(self)@, t)
                },
    {
        let ghost tu = type_url@;
        let e = KnownEntry { type_url, names };
        let ghost ev = (e.type_url@, str_views(e.names@));
        match self.find(e.type_url.as_str()) {
            Some(i) => {
                self.entries.set(i, e);
                assert(self@ =~= old(self)@.update(i as int, ev));
                assert(known_types(self@) =~= known_types(old(self)@)) by {
                    lemma_first_index(known_types(old(self)@), tu);
                }
                assert forall|t: Seq<char>| true implies #[trigger] known_of(self@, t) == if t
                    == tu {
                    Some(ev.1)
                } else {
                    known_of(old(self)@, t)
                } by {
                    lemma_first_index(known_types(old(self)@), t);
                }
            },
            None => {
                self.entries.push(e);
                assert(self@ =~= old(self)@.push(ev));
                assert(known_types(self@) =~= known_types(old(self)@).push(tu));
                assert forall|t: Seq<char>| true implies #[trigger] known_of(self@, t) == if t
                    == tu {
                    Some(ev.1)
                } else {
                    known_of(old(self)@, t)
                } by {
                    lemma_first_index_push(known_types(old(self)@), tu, t);
                    lemma_first_index(known_types(old(self)@), t);
                }
            },
        }
    }

    /// The names known for a type.
    pub fn get(&self, type_url: &str) -> (r: Option<&Vec<String>>)
        ensures
            match r {
                Some(v) => known_of(self@, type_url@) == Some(str_views(v@)),
                None => known_of(self@, type_url@).is_none(),
            },
    {
        match self.find(type_url) {
            Some(i) => Some(&self.entries[i].names),
            None => None,
        }
    }
}

} // verus!
