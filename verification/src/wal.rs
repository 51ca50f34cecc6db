//! The write-ahead log: a monotonically indexed append-only list of update
//! operations, truncated in whole log segments once everything below a
//! watermark is durable.

use vstd::prelude::*;
use crate::types::{PointIdType, SeqNumberType};
use crate::payload::Payload;
use crate::payload_index::PayloadSchemaType;
use crate::segment::NamedVectors;

verus! {

/// One durably logged update operation.
pub enum UpdateOperation {
    UpsertPoint { point_id: PointIdType, vectors: NamedVectors },
    DeletePoint { point_id: PointIdType },
    SetPayload { point_id: PointIdType, payload: Payload },
    OverwritePayload { point_id: PointIdType, payload: Payload },
    DeletePayload { point_id: PointIdType, key: String },
    ClearPayload { point_id: PointIdType },
    CreateFieldIndex { key: String, schema: Option<PayloadSchemaType> },
    DeleteFieldIndex { key: String },
}

/// The append-only operation log of one shard. `first_index` is the
/// operation number of the first retained record; records are numbered
/// consecutively from there.
pub struct Wal {
    pub first_index: SeqNumberType,
    pub records: Vec<UpdateOperation>,
    pub segment_capacity: u64,
}

impl Wal {
    pub open spec fn wf(&self) -> bool {
        &&& self.segment_capacity > 0
        &&& self.first_index + self.records@.len() <= u64::MAX
    }

    /// The operation number the next write will get.
    pub open spec fn spec_next_index(&self) -> int {
        self.first_index + self.records@.len()
    }

    pub fn new(segment_capacity: u64) -> (r: Self)
        requires
            segment_capacity > 0,
        ensures
            r.wf(),
            r.first_index == 0,
            r.records@.len() == 0,
            r.segment_capacity == segment_capacity,
    {
        Wal { first_index: 0, records: Vec::new(), segment_capacity }
    }

    /// An empty log that continues numbering at `index`: what a snapshot
    /// without the log materializes, so the restored shard keeps the
    /// numbering of the snapshotted one.
    pub fn empty_at(index: SeqNumberType, segment_capacity: u64) -> (r: Self)
        requires
            segment_capacity > 0,
        ensures
            r.wf(),
            r.first_index == index,
            r.records@.len() == 0,
            r.segment_capacity == segment_capacity,
            r.spec_next_index() == index,
    {
        Wal { first_index: index, records: Vec::new(), segment_capacity }
    }

    /// Appends an operation; returns its operation number. A full log
    /// (numbering exhausted) refuses the write.
    pub fn write(&mut self, op: UpdateOperation) -> (r: Option<SeqNumberType>)
        requires
            old(self).wf(),
        ensures
            final(self).wf(),
            final(self).first_index == old(self).first_index,
            final(self).segment_capacity == old(self).segment_capacity,
            old(self).spec_next_index() < u64::MAX ==> (r == Some(
                (old(self).spec_next_index()) as SeqNumberType,
            ) && final(self).records@ == old(self).records@.push(op)),
            old(self).spec_next_index() >= u64::MAX ==> r is None && final(self).records@ == old(
                self,
            ).records@,
    {
        let next: u128 = self.first_index as u128 + self.records.len() as u128;
        if next < u64::MAX as u128 {
            let seq: u64 = next as u64;
            self.records.push(op);
            Some(seq)
        } else {
            None
        }
    }

    /// The operation number the next write will get; also the watermark an
    /// empty restored log starts at.
    pub fn last_index(&self) -> (r: SeqNumberType)
        requires
            self.wf(),
        ensures
            r == self.spec_next_index(),
    {
        self.first_index + self.records.len() as u64
    }

    pub fn len(&self) -> (r: usize)
        ensures
            r == self.records@.len(),
    {
        self.records.len()
    }

    /// Drops whole log segments whose every record is at or below the
    /// acknowledged operation number. Only complete segments go; the
    /// remaining records keep their numbers.
    pub fn ack(&mut self, up_to: SeqNumberType)
        requires
            old(self).wf(),
        ensures
            final(self).wf(),
            final(self).segment_capacity == old(self).segment_capacity,
            final(self).first_index >= old(self).first_index,
            final(self).spec_next_index() == old(self).spec_next_index(),
            // Every dropped record was acknowledged.
            final(self).first_index as int <= (if up_to >= old(self).first_index {
                up_to + 1
            } else {
                old(self).first_index as int
            }),
            // The retained records are the suffix, unchanged.
            forall|k: int|
                0 <= k < final(self).records@.len() ==> #[trigger] final(self).records@[k] == old(
                    self,
                ).records@[k + (final(self).first_index - old(self).first_index)],
            // Every fully acknowledged whole segment was dropped: fewer
            // than a segment's worth of acknowledged records remain at the
            // front.
            !(final(self).records@.len() >= final(self).segment_capacity
                && final(self).first_index as int + final(self).segment_capacity as int - 1
                <= up_to as int),
    {
        let cap: u64 = self.segment_capacity;
        let ghost w0 = *self;
        while self.can_ack_segment(up_to)
            invariant
                self.wf(),
                cap == self.segment_capacity,
                self.segment_capacity == w0.segment_capacity,
                self.first_index >= w0.first_index,
                self.spec_next_index() == w0.spec_next_index(),
                forall|k: int|
                    0 <= k < self.records@.len() ==> #[trigger] self.records@[k] == w0.records@[k
                        + (self.first_index - w0.first_index)],
                self.first_index as int <= (if up_to >= w0.first_index {
                    up_to + 1
                } else {
                    w0.first_index as int
                }),
            decreases self.records@.len(),
        {
            let ghost before = *self;
            let mut dropped: u64 = 0;
            while dropped < cap
                invariant
                    0 <= dropped <= cap,
                    cap > 0,
                    before.records@.len() >= cap,
                    self.records@.len() == before.records@.len() - dropped,
                    self.first_index == before.first_index,
                    self.segment_capacity == before.segment_capacity,
                    forall|k: int|
                        0 <= k < self.records@.len() ==> #[trigger] self.records@[k]
                            == before.records@[k + dropped],
                decreases cap - dropped,
            {
                self.records.remove(0);
                dropped = dropped + 1;
            }
            self.first_index = self.first_index + cap;
        }
    }

    /// Whether the oldest whole log segment is fully acknowledged.
    fn can_ack_segment(&self, up_to: SeqNumberType) -> (r: bool)
        requires
            self.wf(),
        ensures
            r == (self.records@.len() >= self.segment_capacity && self.first_index as int
                + self.segment_capacity as int - 1 <= up_to as int),
            r ==> self.records@.len() >= 1,
    {
        let cap128: u128 = self.segment_capacity as u128;
        let have: bool = self.records.len() as u128 >= cap128;
        let acked: bool = self.first_index as u128 + cap128 - 1 <= up_to as u128;
        have && acked
    }

    /// The retained records, numbered from `first_index`.
    pub fn read_all(&self) -> (r: &Vec<UpdateOperation>)
        ensures
            r == &self.records,
    {
        &self.records
    }
}

} // verus!
