use vstd::prelude::*;

use crate::order::{distinct_keys, has_key, key_index, lemma_key_index};
use crate::text::str_eq;

verus! {

/// The local variable slots of a function being compiled: name to slot, and the
/// next free slot.
pub struct LocalEnv {
    names: Vec<String>,
    slots: Vec<u8>,
    next: u8,
}

impl LocalEnv {
    pub closed spec fn wf(&self) -> bool {
        &&& self.names.len() == self.slots.len()
        &&& distinct_keys(self.names@)
    }

    /// The slot of each bound name.
    pub closed spec fn bindings(&self) -> Map<Seq<char>, u8> {
        Map::new(
            |k: Seq<char>| has_key(self.names@, k),
            |k: Seq<char>| self.slots@[key_index(self.names@, k)],
        )
    }

    /// The next slot that `bind_next_if_absent` hands out.
    pub closed spec fn next_slot(&self) -> u8 {
        self.next
    }

    pub fn new() -> (e: Self)
        ensures
            e.wf(),
            e.bindings() == Map::<Seq<char>, u8>::empty(),
            e.next_slot() == 0,
    {
        let e = LocalEnv { names: Vec::new(), slots: Vec::new(), next: 0 };
        assert(e.bindings() =~= Map::<Seq<char>, u8>::empty());
        e
    }

    fn find(&self, name: &str) -> (r: Option<usize>)
        requires
            self.wf(),
        ensures
            match r {
                Some(i) => i < self.names.len() && self.names@[i as int]@ == name@ && self.bindings().dom().contains(
                    name@,
                ) && self.bindings()[name@] == self.slots@[i as int],
                None => !self.bindings().dom().contains(name@),
            },
    {
        let mut i: usize = 0;
        while i < self.names.len()
            invariant
                self.wf(),
                i <= self.names.len(),
                forall|j: int| 0 <= j < i ==> self.names@[j]@ != name@,
            decreases self.names.len() - i,
        {
            if str_eq(self.names[i].as_str(), name) {
                proof { lemma_key_index(self.names@, i as int); }
                return Some(i);
            }
            i += 1;
        }
        None
    }

    /// Sets the slot of `name`.
    fn set_slot(&mut self, name: String, slot: u8)
        requires
            old(self).wf(),
        ensures
            final(self).wf(),
            final(self).bindings() == old(self).bindings().insert(name@, slot),
            final(self).next == old(self).next,
    {
        let ghost before = self.bindings();
        let ghost key = name@;
        match self.find(name.as_str()) {
            Some(i) => {
                let ghost old_slots = self.slots@;
                self.slots.set(i, slot);
                proof { lemma_key_index(self.names@, i as int); }
                assert forall|k: Seq<char>| #[trigger] self.bindings().dom().contains(k) == before.insert(key, slot).dom().contains(k)
                    && (self.bindings().dom().contains(k) ==> self.bindings()[k] == before.insert(key, slot)[k]) by {
                    if k != key && has_key(self.names@, k) {
                        let j = key_index(self.names@, k);
                        assert(j != i);
                    }
                }
                assert(self.bindings() =~= before.insert(key, slot));
            },
            None => {
                let ghost old_names = self.names@;
                self.names.push(name);
                self.slots.push(slot);
                assert(distinct_keys(self.names@)) by {
                    assert forall|i: int, j: int| 0 <= i < j < self.names@.len() implies (#[trigger] self.names@[i])@
                        != (#[trigger] self.names@[j])@ by {
                        assert(self.names@[i] == old_names[i]);
                        if j < old_names.len() {
                            assert(self.names@[j] == old_names[j]);
                        }
                    }
                }
                proof { lemma_key_index(self.names@, old_names.len() as int); }
                assert forall|k: Seq<char>| #[trigger] self.bindings().dom().contains(k) == before.insert(key, slot).dom().contains(k)
                    && (self.bindings().dom().contains(k) ==> self.bindings()[k] == before.insert(key, slot)[k]) by {
                    if k != key {
                        if has_key(self.names@, k) {
                            let j = key_index(self.names@, k);
                            assert(j != old_names.len());
                            assert(self.names@[j] == old_names[j]);
                            assert(has_key(old_names, k));
                            lemma_key_index(old_names, j);
                            lemma_key_index(self.names@, j);
                        }
                        if has_key(old_names, k) {
                            let j = key_index(old_names, k);
                            assert(self.names@[j] == old_names[j]);
                        }
                    }
                }
                assert(self.bindings() =~= before.insert(key, slot));
            },
        }
    }

    /// Binds `name` to `slot`; the next free slot moves past `slot`.
    pub fn bind(&mut self, name: String, slot: u8)
        requires
            old(self).wf(),
            slot < 255,
        ensures
            final(self).wf(),
            final(self).bindings() == old(self).bindings().insert(name@, slot),
            final(self).next_slot() == if old(self).next_slot() > slot + 1 { old(self).next_slot() } else { (slot + 1) as u8 },
    {
        self.set_slot(name, slot);
        let s1 = slot + 1;
        if self.next < s1 {
            self.next = s1;
        }
    }

    /// The slot of `name`, binding it to the next free slot first if it has none.
    pub fn bind_next_if_absent(&mut self, name: String) -> (r: u8)
        requires
            old(self).wf(),
            old(self).bindings().dom().contains(name@) || old(self).next_slot() < 255,
        ensures
            final(self).wf(),
            old(self).bindings().dom().contains(name@) ==> r == old(self).bindings()[name@] && final(self).bindings()
                == old(self).bindings() && final(self).next_slot() == old(self).next_slot(),
            !old(self).bindings().dom().contains(name@) ==> r == old(self).next_slot() && final(self).bindings()
                == old(self).bindings().insert(name@, r) && final(self).next_slot() == old(self).next_slot() + 1,
    {
        match self.find(name.as_str()) {
            Some(i) => self.slots[i],
            None => {
                let i = self.next;
                self.set_slot(name, i);
                self.next = i + 1;
                i
            },
        }
    }

    /// The slot of `name`, if it is bound.
    pub fn lookup(&self, name: &str) -> (r: Option<u8>)
        requires
            self.wf(),
        ensures
            match r {
                Some(s) => self.bindings().dom().contains(name@) && self.bindings()[name@] == s,
                None => !self.bindings().dom().contains(name@),
            },
    {
        match self.find(name) {
            Some(i) => Some(self.slots[i]),
            None => None,
        }
    }
}

/// A bound name reads back the slot it was bound to, and binding one name leaves the
/// other names as they were.
pub proof fn law_bind_then_lookup(m: Map<Seq<char>, u8>, name: Seq<char>, slot: u8, other: Seq<char>)
    ensures
        m.insert(name, slot).dom().contains(name) && m.insert(name, slot)[name] == slot,
        other != name ==> (m.insert(name, slot).dom().contains(other) == m.dom().contains(other) && (m.dom().contains(
            other,
        ) ==> m.insert(name, slot)[other] == m[other])),
{
}

} // verus!
