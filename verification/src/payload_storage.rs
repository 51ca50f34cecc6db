//! In-memory payload storage: one document per internal offset. An offset
//! that was never assigned reads as an empty document.

use vstd::prelude::*;
use crate::types::PointOffsetType;
use crate::payload::{Payload, PayloadValue};

verus! {

/// Payload storage of one segment, keyed by internal offset.
pub struct SimplePayloadStorage {
    pub payloads: Vec<Payload>,
}

impl SimplePayloadStorage {
    pub open spec fn wf(&self) -> bool {
        forall|i: int| 0 <= i < self.payloads@.len() ==> (#[trigger] self.payloads@[i]).wf()
    }

    pub open spec fn spec_len(&self) -> nat {
        self.payloads@.len()
    }

    /// What a reader sees for a field of a point; an offset outside the
    /// storage reads as an absent field.
    pub open spec fn spec_field_of(&self, i: PointOffsetType, key: Seq<char>) -> Option<
        Seq<PayloadValue>,
    > {
        if i < self.payloads@.len() {
            self.payloads@[i as int].spec_values(key)
        } else {
            None
        }
    }

    /// The document is present and holds at least one field.
    pub open spec fn spec_has_payload(&self, i: PointOffsetType) -> bool {
        i < self.payloads@.len() && self.payloads@[i as int].entries@.len() > 0
    }

    pub fn new() -> (r: Self)
        ensures
            r.wf(),
            r.spec_len() == 0,
    {
        SimplePayloadStorage { payloads: Vec::new() }
    }

    pub fn len(&self) -> (r: usize)
        ensures
            r == self.spec_len(),
    {
        self.payloads.len()
    }

    /// The stored document of an offset, when the offset is addressable.
    pub fn payload(&self, i: PointOffsetType) -> (r: Option<&Payload>)
        ensures
            match r {
                Some(p) => i < self.spec_len() && self.payloads@[i as int] == *p,
                None => i >= self.spec_len(),
            },
    {
        if (i as usize) < self.payloads.len() {
            Some(&self.payloads[i as usize])
        } else {
            None
        }
    }

    /// Grows the storage with empty documents so that offset `i` is
    /// addressable.
    pub fn reserve_up_to(&mut self, i: PointOffsetType)
        requires
            old(self).wf(),
        ensures
            final(self).wf(),
            final(self).spec_len() > i,
            final(self).spec_len() >= old(self).spec_len(),
            final(self).spec_len() as int == (if i < old(self).spec_len() {
                old(self).spec_len() as int
            } else {
                i as int + 1
            }),
            forall|j: int|
                0 <= j < old(self).payloads@.len() ==> final(self).payloads@[j] == old(
                    self,
                ).payloads@[j],
            forall|j: int|
                (old(self).payloads@.len() <= j && j < final(self).payloads@.len())
                    ==> (final(self).payloads@[j]).entries@.len() == 0,
            forall|k2: PointOffsetType, key: Seq<char>|
                #[trigger] final(self).spec_field_of(k2, key) == old(self).spec_field_of(k2, key),
    {
        while self.payloads.len() <= i as usize
            invariant
                old(self).wf(),
                self.payloads@.len() >= old(self).payloads@.len(),
                self.payloads@.len() as int <= (if old(self).payloads@.len() > i {
                    old(self).payloads@.len() as int
                } else {
                    i as int + 1
                }),
                forall|j: int|
                    0 <= j < old(self).payloads@.len() ==> self.payloads@[j] == old(
                        self,
                    ).payloads@[j],
                forall|j: int|
                    (old(self).payloads@.len() <= j && j < self.payloads@.len()) ==> (
                    self.payloads@[j]).entries@.len() == 0,
            decreases i as int + 1 - self.payloads@.len(),
        {
            self.payloads.push(Payload::new());
        }
        proof {
            assert(self.wf());
            assert forall|k2: PointOffsetType, key: Seq<char>| #[trigger] self.spec_field_of(
                k2,
                key,
            ) == old(self).spec_field_of(k2, key) by {
                if old(self).payloads@.len() <= k2 && (k2 as int) < self.payloads@.len() {
                    assert(self.payloads@[k2 as int].entries@.len() == 0);
                    crate::assoc::lemma_assoc_index_of(self.payloads@[k2 as int].entries@, key);
                }
            }
        }
    }

    /// Merges a document into the one stored at an offset: fields of
    /// `payload` overwrite, other stored fields stay.
    pub fn assign(&mut self, i: PointOffsetType, payload: &Payload)
        requires
            old(self).wf(),
            payload.wf(),
        ensures
            final(self).wf(),
            final(self).spec_len() > i,
            final(self).spec_len() >= old(self).spec_len(),
            final(self).spec_len() as int == (if i < old(self).spec_len() {
                old(self).spec_len() as int
            } else {
                i as int + 1
            }),
            forall|key: Seq<char>|
                #[trigger] final(self).spec_field_of(i, key) == (if payload.spec_values(
                    key,
                ) is Some {
                    payload.spec_values(key)
                } else {
                    old(self).spec_field_of(i, key)
                }),
            forall|i2: PointOffsetType, key: Seq<char>|
                i2 != i ==> #[trigger] final(self).spec_field_of(i2, key) == old(
                    self,
                ).spec_field_of(i2, key),
    {
        self.reserve_up_to(i);
        let mut current: Payload = self.payloads[i as usize].duplicate();
        current.merge(payload);
        self.payloads.set(i as usize, current);
    }

    /// Replaces the document at an offset outright.
    pub fn set_full(&mut self, i: PointOffsetType, payload: &Payload)
        requires
            old(self).wf(),
            payload.wf(),
        ensures
            final(self).wf(),
            final(self).spec_len() > i,
            final(self).spec_len() >= old(self).spec_len(),
            final(self).spec_len() as int == (if i < old(self).spec_len() {
                old(self).spec_len() as int
            } else {
                i as int + 1
            }),
            forall|key: Seq<char>|
                #[trigger] final(self).spec_field_of(i, key) == payload.spec_values(key),
            forall|i2: PointOffsetType, key: Seq<char>|
                i2 != i ==> #[trigger] final(self).spec_field_of(i2, key) == old(
                    self,
                ).spec_field_of(i2, key),
    {
        self.reserve_up_to(i);
        let copy = payload.duplicate();
        self.payloads.set(i as usize, copy);
    }

    /// Deletes one field of the document at an offset.
    pub fn delete(&mut self, i: PointOffsetType, key: &String)
        requires
            old(self).wf(),
        ensures
            final(self).wf(),
            final(self).spec_len() == old(self).spec_len(),
            final(self).spec_field_of(i, key@) is None,
            forall|key2: Seq<char>|
                key2 != key@ ==> #[trigger] final(self).spec_field_of(i, key2) == old(
                    self,
                ).spec_field_of(i, key2),
            forall|i2: PointOffsetType, key2: Seq<char>|
                i2 != i ==> #[trigger] final(self).spec_field_of(i2, key2) == old(
                    self,
                ).spec_field_of(i2, key2),
    {
        if (i as usize) < self.payloads.len() {
            let mut current = self.payloads[i as usize].duplicate();
            current.remove(key);
            self.payloads.set(i as usize, current);
        }
    }

    /// Drops the whole document at an offset; reports whether any field was
    /// stored there.
    pub fn drop_payload(&mut self, i: PointOffsetType) -> (r: bool)
        requires
            old(self).wf(),
        ensures
            final(self).wf(),
            final(self).spec_len() == old(self).spec_len(),
            r == old(self).spec_has_payload(i),
            forall|key: Seq<char>| #[trigger] final(self).spec_field_of(i, key) is None,
            forall|i2: PointOffsetType, key: Seq<char>|
                i2 != i ==> #[trigger] final(self).spec_field_of(i2, key) == old(
                    self,
                ).spec_field_of(i2, key),
    {
        if (i as usize) < self.payloads.len() {
            let had = self.payloads[i as usize].entries.len() > 0;
            self.payloads.set(i as usize, Payload::new());
            proof {
                assert forall|key: Seq<char>| #[trigger] self.spec_field_of(i, key) is None by {
                    crate::assoc::lemma_assoc_index_of(self.payloads@[i as int].entries@, key);
                }
            }
            had
        } else {
            false
        }
    }

    /// Removes every document.
    pub fn wipe(&mut self)
        requires
            old(self).wf(),
        ensures
            final(self).wf(),
            final(self).spec_len() == 0,
            forall|i: PointOffsetType, key: Seq<char>|
                #[trigger] final(self).spec_field_of(i, key) is None,
    {
        self.payloads = Vec::new();
    }
}

} // verus!
