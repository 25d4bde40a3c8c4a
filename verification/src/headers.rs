//! The header map a connection accumulates while its upgrade request is
//! parsed: byte-string names bound to byte-string values, with unique names
//! and last-write-wins insertion.

use vstd::prelude::*;

use crate::assoc::{
    assoc_get, assoc_set, assoc_wf, lemma_get_found, lemma_get_none, lemma_set_found,
    lemma_set_absent, lemma_set_wf,
};
use crate::bytes::{bytes_eq, copy_bytes};

verus! {

/// A map from header names to header values, modelled as an association list
/// of byte sequences with distinct keys.
pub struct HeaderMap {
    entries: Vec<(Vec<u8>, Vec<u8>)>,
}

impl View for HeaderMap {
    type V = Seq<(Seq<u8>, Seq<u8>)>;

    closed spec fn view(&self) -> Seq<(Seq<u8>, Seq<u8>)> {
        Seq::new(self.entries@.len(), |i: int| (self.entries@[i].0@, self.entries@[i].1@))
    }
}

impl HeaderMap {
    /// Header names are unique.
    pub open spec fn wf(&self) -> bool {
        assoc_wf(self@)
    }

    /// An empty map.
    pub fn new() -> (r: HeaderMap)
        ensures
            r.wf(),
            r@ == Seq::<(Seq<u8>, Seq<u8>)>::empty(),
    {
        let r = HeaderMap { entries: Vec::new() };
        proof {
            assert(r@ =~= Seq::<(Seq<u8>, Seq<u8>)>::empty());
        }
        r
    }

    /// The index of the entry named `k`, if any; earlier entries hold other
    /// names.
    fn find(&self, k: &[u8]) -> (r: Option<usize>)
        ensures
            match r {
                Some(i) => i < self@.len() && self@[i as int].0 == k@ && forall|j: int|
                    0 <= j < i ==> self@[j].0 != k@,
                None => forall|j: int| 0 <= j < self@.len() ==> self@[j].0 != k@,
            },
    {
        let mut i: usize = 0;
        while i < self.entries.len()
            invariant
                i <= self@.len(),
                self@.len() == self.entries@.len(),
                forall|j: int| 0 <= j < i ==> self@[j].0 != k@,
            decreases self.entries@.len() - i,
        {
            if bytes_eq(self.entries[i].0.as_slice(), k) {
                proof {
                    assert(self@[i as int].0 == self.entries@[i as int].0@);
                }
                return Some(i);
            }
            proof {
                assert(self@[i as int].0 == self.entries@[i as int].0@);
            }
            i += 1;
        }
        None
    }

    /// The value bound to `k`, if any.
    pub fn get(&self, k: &[u8]) -> (r: Option<&Vec<u8>>)
        ensures
            match r {
                Some(v) => assoc_get(self@, k@) == Some(v@),
                None => assoc_get(self@, k@) is None,
            },
    {
        match self.find(k) {
            Some(i) => {
                proof {
                    lemma_get_found(self@, k@, i as int);
                    assert(self@[i as int].1 == self.entries@[i as int].1@);
                }
                Some(&self.entries[i].1)
            },
            None => {
                proof {
                    lemma_get_none(self@, k@);
                }
                None
            },
        }
    }

    /// Whether some value is bound to `k`.
    pub fn contains_key(&self, k: &[u8]) -> (r: bool)
        ensures
            r == (assoc_get(self@, k@) is Some),
    {
        match self.get(k) {
            Some(_) => true,
            None => false,
        }
    }

    /// Binds `k` to `v`, overwriting any value previously bound to `k`.
    pub fn set(&mut self, k: &[u8], v: &[u8])
        requires
            old(self).wf(),
        ensures
            final(self).wf(),
            final(self)@ == assoc_set(old(self)@, k@, v@),
    {
        let kv = copy_bytes(k);
        let vv = copy_bytes(v);
        match self.find(k) {
            Some(i) => {
                proof {
                    lemma_set_found(self@, k@, v@, i as int);
                }
                let ghost before = self@;
                self.entries.remove(i);
                self.entries.insert(i, (kv, vv));
                proof {
                    assert(self@ =~= before.update(i as int, (k@, v@)));
                }
            },
            None => {
                proof {
                    lemma_set_absent(self@, k@, v@);
                }
                let ghost before = self@;
                self.entries.push((kv, vv));
                proof {
                    assert(self@ =~= before.push((k@, v@)));
                }
            },
        }
        proof {
            lemma_set_wf(old(self)@, k@, v@);
        }
    }
}

} // verus!
