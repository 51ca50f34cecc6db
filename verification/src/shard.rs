//! The local shard: a segment holder plus the write-ahead log. Updates are
//! durably sequenced by the log and routed to segments; on startup the log
//! is replayed over the loaded segments.

use vstd::prelude::*;
use crate::types::{PointIdType, SeqNumberType};
use crate::errors::{CollectionError, CollectionResult, OperationError};
use crate::holder::SegmentHolder;
use crate::wal::{Wal, UpdateOperation};
use crate::segment::{Segment, SegmentSnapshot, NamedVectors};
use crate::payload::{Payload, Filter};
use crate::payload_index::{CardinalityEstimation, PayloadSchemaType};

verus! {

/// Segment `i` is the first holding the point.
pub open spec fn spec_first_owner_is(segs: Seq<Segment>, pid: PointIdType, i: int) -> bool {
    &&& 0 <= i < segs.len()
    &&& segs[i].spec_has_point(pid)
    &&& forall|j: int| 0 <= j < i ==> !(#[trigger] segs[j]).spec_has_point(pid)
}

/// No segment holds the point.
pub open spec fn spec_no_owner(segs: Seq<Segment>, pid: PointIdType) -> bool {
    forall|i: int| 0 <= i < segs.len() ==> !(#[trigger] segs[i]).spec_has_point(pid)
}

/// Segment `i` is the first appendable one.
pub open spec fn spec_first_appendable_is(segs: Seq<Segment>, i: int) -> bool {
    &&& 0 <= i < segs.len()
    &&& segs[i].appendable_flag
    &&& forall|j: int| 0 <= j < i ==> !(#[trigger] segs[j]).appendable_flag
}

/// No segment accepts appends.
pub open spec fn spec_no_appendable(segs: Seq<Segment>) -> bool {
    forall|i: int| 0 <= i < segs.len() ==> !(#[trigger] segs[i]).appendable_flag
}

/// Every segment but `i` is untouched.
pub open spec fn spec_frame_except(pre: Seq<Segment>, post: Seq<Segment>, i: int) -> bool {
    &&& post.len() == pre.len()
    &&& forall|j: int| 0 <= j < pre.len() && j != i ==> post[j] == pre[j]
}

/// What an upsert does to the segment it is routed to.
pub open spec fn spec_upsert_step(
    pre: Segment,
    post: Segment,
    op_num: SeqNumberType,
    pid: PointIdType,
    nv: NamedVectors,
    ok: bool,
) -> bool {
    &&& (ok ==> !crate::segment::spec_error_gate_blocks(pre.error_status, op_num))
    &&& ((ok && crate::segment::spec_stale(pre, pid, op_num)) ==> post == (Segment {
        error_status: crate::segment::spec_settled_error(
            pre.error_status,
            op_num,
            if pre.spec_has_point(pid) {
                Some(pid)
            } else {
                None
            },
            None,
        ),
        ..pre
    }))
    &&& ((ok && !crate::segment::spec_stale(pre, pid, op_num))
        ==> crate::laws::spec_upsert_applied(pre, post, op_num, pid, nv))
    &&& (!ok ==> post.id_tracker == pre.id_tracker && post.vector_data == pre.vector_data
        && post.payload_storage == pre.payload_storage && post.version == pre.version)
    // Acceptable input on an unblocked segment always applies.
    &&& ((!crate::segment::spec_error_gate_blocks(pre.error_status, op_num) && nv.wf()
        && nv.pairs@.len() == pre.segment_config.vector_data@.len() && (
    crate::segment::spec_stale(pre, pid, op_num) || (crate::segment::spec_vectors_valid(
        pre.segment_config,
        nv,
    ) && (pre.spec_has_point(pid) || pre.id_tracker.spec_internal_size() < 0xffff_ffff))))
        ==> ok)
}

/// What a point deletion does to the segment it is routed to.
pub open spec fn spec_delete_step(
    pre: Segment,
    post: Segment,
    op_num: SeqNumberType,
    pid: PointIdType,
    ok: bool,
) -> bool {
    &&& (ok <==> !(pre.spec_has_point(pid) && crate::segment::spec_error_gate_blocks(
        pre.error_status,
        op_num,
    )))
    &&& ((ok && !pre.spec_has_point(pid)) ==> post == pre)
    &&& ((ok && pre.spec_has_point(pid) && crate::segment::spec_stale(pre, pid, op_num))
        ==> post == (Segment {
        error_status: crate::segment::spec_settled_error(
            pre.error_status,
            op_num,
            Some(pid),
            None,
        ),
        ..pre
    }))
    &&& ((ok && pre.spec_has_point(pid) && !crate::segment::spec_stale(pre, pid, op_num)) ==> (
    !post.spec_has_point(pid) && post.version == Some(
        crate::segment::spec_max_u64(pre.spec_version(), op_num),
    ) && (forall|e2: PointIdType|
        e2 != pid ==> #[trigger] post.id_tracker.spec_internal_id(e2)
            == pre.id_tracker.spec_internal_id(e2))))
    &&& (!ok ==> post == pre)
}

/// What a payload edit does to the segment it is routed to: the version
/// gate and latch behave as for every mutation; the field effect itself is
/// the segment operation's and is not repeated here.
pub open spec fn spec_payload_step(
    pre: Segment,
    post: Segment,
    op_num: SeqNumberType,
    pid: PointIdType,
    payload_ok: bool,
    ok: bool,
) -> bool {
    &&& (payload_ok ==> (ok <==> (!crate::segment::spec_error_gate_blocks(
        pre.error_status,
        op_num,
    ) && pre.spec_has_point(pid))))
    &&& (!payload_ok ==> !ok)
    &&& ((ok && pre.spec_has_point(pid) && crate::segment::spec_stale(pre, pid, op_num)
        && payload_ok) ==> post == (Segment {
        error_status: crate::segment::spec_settled_error(
            pre.error_status,
            op_num,
            Some(pid),
            None,
        ),
        ..pre
    }))
    &&& ((ok && !crate::segment::spec_stale(pre, pid, op_num)) ==> (post.spec_point_version(pid)
        == Some(op_num) && post.version == Some(
        crate::segment::spec_max_u64(pre.spec_version(), op_num),
    ) && post.id_tracker.spec_links() == pre.id_tracker.spec_links()))
    &&& (!ok ==> post.id_tracker.spec_links() == pre.id_tracker.spec_links()
        && post.vector_data == pre.vector_data && post.version == pre.version
        && post.payload_storage == pre.payload_storage)
}

/// What a field-index change does to the segment it is routed to.
pub open spec fn spec_index_step(
    pre: Segment,
    post: Segment,
    op_num: SeqNumberType,
    key: Seq<char>,
    create: bool,
    schema: Option<PayloadSchemaType>,
    ok: bool,
) -> bool {
    &&& (ok ==> !crate::segment::spec_error_gate_blocks(pre.error_status, op_num))
    &&& ((!crate::segment::spec_error_gate_blocks(pre.error_status, op_num)
        && pre.spec_version() <= op_num && (!create || schema is Some
        || crate::segment::spec_field_inferable(pre, key))) ==> ok)
    &&& post.id_tracker == pre.id_tracker
    &&& post.payload_storage == pre.payload_storage
    &&& post.vector_data == pre.vector_data
    &&& ((ok && pre.spec_version() <= op_num && create && schema is Some)
        ==> post.payload_index.spec_schema_of(key) == Some(schema->Some_0))
    &&& ((ok && pre.spec_version() <= op_num && !create)
        ==> post.payload_index.spec_schema_of(key) is None)
}

/// The whole effect of routing one numbered operation into a segment set.
pub open spec fn spec_apply_outcome(
    pre: Seq<Segment>,
    post: Seq<Segment>,
    op_num: SeqNumberType,
    op: UpdateOperation,
    ok: bool,
) -> bool {
    match op {
        UpdateOperation::UpsertPoint { point_id, vectors } => {
            ||| (exists|i: int|
                #[trigger] spec_first_owner_is(pre, point_id, i) && spec_frame_except(
                    pre,
                    post,
                    i,
                ) && spec_upsert_step(pre[i], post[i], op_num, point_id, vectors, ok))
            ||| (spec_no_owner(pre, point_id) && exists|i: int|
                #[trigger] spec_first_appendable_is(pre, i) && spec_frame_except(pre, post, i)
                    && spec_upsert_step(pre[i], post[i], op_num, point_id, vectors, ok))
            ||| (spec_no_owner(pre, point_id) && spec_no_appendable(pre) && post == pre && !ok)
        },
        UpdateOperation::DeletePoint { point_id } => {
            ||| (exists|i: int|
                #[trigger] spec_first_owner_is(pre, point_id, i) && spec_frame_except(
                    pre,
                    post,
                    i,
                ) && spec_delete_step(pre[i], post[i], op_num, point_id, ok))
            ||| (spec_no_owner(pre, point_id) && post == pre && ok)
        },
        UpdateOperation::SetPayload { point_id, payload } => {
            ||| (exists|i: int|
                #[trigger] spec_first_owner_is(pre, point_id, i) && spec_frame_except(
                    pre,
                    post,
                    i,
                ) && spec_payload_step(pre[i], post[i], op_num, point_id, payload.wf(), ok))
            ||| (spec_no_owner(pre, point_id) && post == pre && ok)
        },
        UpdateOperation::OverwritePayload { point_id, payload } => {
            ||| (exists|i: int|
                #[trigger] spec_first_owner_is(pre, point_id, i) && spec_frame_except(
                    pre,
                    post,
                    i,
                ) && spec_payload_step(pre[i], post[i], op_num, point_id, payload.wf(), ok))
            ||| (spec_no_owner(pre, point_id) && post == pre && ok)
        },
        UpdateOperation::DeletePayload { point_id, key } => {
            ||| (exists|i: int|
                #[trigger] spec_first_owner_is(pre, point_id, i) && spec_frame_except(
                    pre,
                    post,
                    i,
                ) && spec_payload_step(pre[i], post[i], op_num, point_id, true, ok))
            ||| (spec_no_owner(pre, point_id) && post == pre && ok)
        },
        UpdateOperation::ClearPayload { point_id } => {
            ||| (exists|i: int|
                #[trigger] spec_first_owner_is(pre, point_id, i) && spec_frame_except(
                    pre,
                    post,
                    i,
                ) && spec_payload_step(pre[i], post[i], op_num, point_id, true, ok))
            ||| (spec_no_owner(pre, point_id) && post == pre && ok)
        },
        UpdateOperation::CreateFieldIndex { key, schema } => {
            ||| (exists|i: int|
                #[trigger] spec_first_appendable_is(pre, i) && spec_frame_except(pre, post, i)
                    && spec_index_step(pre[i], post[i], op_num, key@, true, schema, ok))
            ||| (spec_no_appendable(pre) && post == pre && !ok)
        },
        UpdateOperation::DeleteFieldIndex { key } => {
            ||| (exists|i: int|
                #[trigger] spec_first_appendable_is(pre, i) && spec_frame_except(pre, post, i)
                    && spec_index_step(pre[i], post[i], op_num, key@, false, None, ok))
            ||| (spec_no_appendable(pre) && post == pre && !ok)
        },
    }
}

/// The effect with either outcome: what one replayed record may do.
pub open spec fn spec_apply_outcome_any(
    pre: Seq<Segment>,
    post: Seq<Segment>,
    op_num: SeqNumberType,
    op: UpdateOperation,
) -> bool {
    spec_apply_outcome(pre, post, op_num, op, true) || spec_apply_outcome(
        pre,
        post,
        op_num,
        op,
        false,
    )
}

/// The id appears in some segment's unlimited scroll for the filter.
pub open spec fn spec_in_some_scroll(segs: Seq<Segment>, fo: Option<Filter>, e: PointIdType) -> bool {
    exists|i: int|
        0 <= i < segs.len() && crate::segment::spec_read_filtered(
            #[trigger] segs[i],
            None,
            None,
            fo,
        ).contains(e)
}

/// Every segment flushed: data identical, persisted version caught up.
pub open spec fn spec_flushed_from(pre: Seq<Segment>, post: Seq<Segment>) -> bool {
    &&& post.len() == pre.len()
    &&& forall|i: int|
        0 <= i < pre.len() ==> (#[trigger] post[i]).persisted_version == pre[i].version
            && post[i].version == pre[i].version && post[i].id_tracker == pre[i].id_tracker
            && post[i].vector_data == pre[i].vector_data && post[i].payload_storage
            == pre[i].payload_storage
}

/// A replay trace: the segment states before and after each retained
/// record is routed, ending in a sync flush of everything.
pub open spec fn spec_replay_trace(
    trace: Seq<Seq<Segment>>,
    pre: Seq<Segment>,
    first: SeqNumberType,
    records: Seq<UpdateOperation>,
    post: Seq<Segment>,
) -> bool {
    &&& trace.len() == records.len() + 1
    &&& trace[0] == pre
    &&& (forall|k: int|
        0 <= k < records.len() ==> #[trigger] spec_apply_outcome_any(
            trace[k],
            trace[k + 1],
            (first + k) as SeqNumberType,
            records[k],
        ))
    &&& spec_flushed_from(trace[trace.len() - 1], post)
}

/// One shard of a collection on this node.
pub struct LocalShard {
    pub segments: SegmentHolder,
    pub wal: Wal,
}

impl LocalShard {
    pub open spec fn wf(&self) -> bool {
        &&& self.segments.wf()
        &&& self.wal.wf()
    }

    pub fn new(segments: SegmentHolder, wal: Wal) -> (r: Self)
        requires
            segments.wf(),
            wal.wf(),
        ensures
            r.wf(),
            r.segments == segments,
            r.wal == wal,
    {
        LocalShard { segments, wal }
    }

    /// Applies one numbered operation to the segments: a point operation
    /// goes to the segment holding the point, else to an appendable
    /// segment; an index operation goes to every segment.
    #[verifier::loop_isolation(false)]
    pub fn apply_operation(&mut self, op_num: SeqNumberType, op: &UpdateOperation) -> (r:
        CollectionResult<bool>)
        requires
            old(self).wf(),
        ensures
            final(self).wf(),
            final(self).wal == old(self).wal,
            final(self).segments.segments@.len() == old(self).segments.segments@.len(),
            spec_apply_outcome(
                old(self).segments.segments@,
                final(self).segments.segments@,
                op_num,
                *op,
                r is Ok,
            ),
    {
        let target: Option<usize> = match op {
            UpdateOperation::UpsertPoint { point_id, .. } => {
                match self.segments.segment_of(point_id) {
                    Some(i) => Some(i),
                    None => self.segments.appendable_segment(),
                }
            },
            UpdateOperation::DeletePoint { point_id } => self.segments.segment_of(point_id),
            UpdateOperation::SetPayload { point_id, .. } => self.segments.segment_of(point_id),
            UpdateOperation::OverwritePayload { point_id, .. } => self.segments.segment_of(
                point_id,
            ),
            UpdateOperation::DeletePayload { point_id, .. } => self.segments.segment_of(point_id),
            UpdateOperation::ClearPayload { point_id } => self.segments.segment_of(point_id),
            UpdateOperation::CreateFieldIndex { .. } => self.segments.appendable_segment(),
            UpdateOperation::DeleteFieldIndex { .. } => self.segments.appendable_segment(),
        };
        let i = match target {
            Some(i) => i,
            None => {
                // A delete or payload change for an unknown point is a
                // no-op; an upsert with no appendable segment is a failure.
                match op {
                    UpdateOperation::UpsertPoint { .. } => {
                        return Err(
                            CollectionError::service_error(
                                "no appendable segment to write to".to_owned(),
                            ),
                        );
                    },
                    UpdateOperation::CreateFieldIndex { .. } => {
                        return Err(
                            CollectionError::service_error(
                                "no appendable segment to write to".to_owned(),
                            ),
                        );
                    },
                    UpdateOperation::DeleteFieldIndex { .. } => {
                        return Err(
                            CollectionError::service_error(
                                "no appendable segment to write to".to_owned(),
                            ),
                        );
                    },
                    _ => {
                        return Ok(false);
                    },
                }
            },
        };
        let ghost pre_segs = self.segments.segments@;
        let ghost cur0 = self.segments.segments@;
        let mut seg = self.segments.segments.remove(i);
        let res: Result<bool, OperationError> = match op {
            UpdateOperation::UpsertPoint { point_id, vectors } => {
                if check_named_vectors(vectors) {
                    seg.upsert_vector(op_num, *point_id, vectors)
                } else {
                    Err(
                        OperationError::ServiceError {
                            description: "vector names do not match the segment configuration"
                                .to_owned(),
                        },
                    )
                }
            },
            UpdateOperation::DeletePoint { point_id } => seg.delete_point(op_num, *point_id),
            UpdateOperation::SetPayload { point_id, payload } => {
                if check_payload(payload) {
                    seg.set_payload(op_num, *point_id, payload)
                } else {
                    Err(
                        OperationError::ServiceError {
                            description: "payload keys are not unique".to_owned(),
                        },
                    )
                }
            },
            UpdateOperation::OverwritePayload { point_id, payload } => {
                if check_payload(payload) {
                    seg.set_full_payload(op_num, *point_id, payload)
                } else {
                    Err(
                        OperationError::ServiceError {
                            description: "payload keys are not unique".to_owned(),
                        },
                    )
                }
            },
            UpdateOperation::DeletePayload { point_id, key } => seg.delete_payload(
                op_num,
                *point_id,
                key,
            ),
            UpdateOperation::ClearPayload { point_id } => seg.clear_payload(op_num, *point_id),
            UpdateOperation::CreateFieldIndex { key, schema } => seg.create_field_index(
                op_num,
                key,
                *schema,
            ),
            UpdateOperation::DeleteFieldIndex { key } => seg.delete_field_index(op_num, key),
        };
        self.segments.segments.insert(i, seg);
        proof {
            crate::segment::lemma_remove_insert_update(
                cur0,
                i as int,
                self.segments.segments@[i as int],
            );
            assert(self.segments.segments@ =~= cur0.update(
                i as int,
                self.segments.segments@[i as int],
            ));
            let post_segs = self.segments.segments@;
            assert(spec_frame_except(pre_segs, post_segs, i as int));
            let okr = res is Ok;
            match op {
                UpdateOperation::UpsertPoint { point_id, vectors } => {
                    assert(spec_upsert_step(
                        pre_segs[i as int],
                        post_segs[i as int],
                        op_num,
                        *point_id,
                        *vectors,
                        okr,
                    ));
                    if pre_segs[i as int].spec_has_point(*point_id) {
                        assert(spec_first_owner_is(pre_segs, *point_id, i as int));
                    } else {
                        assert(spec_no_owner(pre_segs, *point_id));
                        assert(spec_first_appendable_is(pre_segs, i as int));
                    }
                },
                UpdateOperation::DeletePoint { point_id } => {
                    assert(spec_first_owner_is(pre_segs, *point_id, i as int));
                    assert(spec_delete_step(
                        pre_segs[i as int],
                        post_segs[i as int],
                        op_num,
                        *point_id,
                        okr,
                    ));
                },
                UpdateOperation::SetPayload { point_id, payload } => {
                    assert(spec_first_owner_is(pre_segs, *point_id, i as int));
                    assert(spec_payload_step(
                        pre_segs[i as int],
                        post_segs[i as int],
                        op_num,
                        *point_id,
                        payload.wf(),
                        okr,
                    ));
                },
                UpdateOperation::OverwritePayload { point_id, payload } => {
                    assert(spec_first_owner_is(pre_segs, *point_id, i as int));
                    assert(spec_payload_step(
                        pre_segs[i as int],
                        post_segs[i as int],
                        op_num,
                        *point_id,
                        payload.wf(),
                        okr,
                    ));
                },
                UpdateOperation::DeletePayload { point_id, key } => {
                    assert(spec_first_owner_is(pre_segs, *point_id, i as int));
                    assert(spec_payload_step(
                        pre_segs[i as int],
                        post_segs[i as int],
                        op_num,
                        *point_id,
                        true,
                        okr,
                    ));
                },
                UpdateOperation::ClearPayload { point_id } => {
                    assert(spec_first_owner_is(pre_segs, *point_id, i as int));
                    assert(spec_payload_step(
                        pre_segs[i as int],
                        post_segs[i as int],
                        op_num,
                        *point_id,
                        true,
                        okr,
                    ));
                },
                UpdateOperation::CreateFieldIndex { key, schema } => {
                    assert(spec_first_appendable_is(pre_segs, i as int));
                    assert(spec_index_step(
                        pre_segs[i as int],
                        post_segs[i as int],
                        op_num,
                        key@,
                        true,
                        *schema,
                        okr,
                    ));
                },
                UpdateOperation::DeleteFieldIndex { key } => {
                    assert(spec_first_appendable_is(pre_segs, i as int));
                    assert(spec_index_step(
                        pre_segs[i as int],
                        post_segs[i as int],
                        op_num,
                        key@,
                        false,
                        None,
                        okr,
                    ));
                },
            }
        }
        match res {
            Ok(applied) => Ok(applied),
            Err(e) => Err(collection_error_of(e)),
        }
    }

    /// Handles one client update: the operation is applied to the segments
    /// under a fresh number, then durably appended to the log under that
    /// number.
    pub fn update(&mut self, op: UpdateOperation) -> (r: CollectionResult<SeqNumberType>)
        requires
            old(self).wf(),
        ensures
            final(self).wf(),
            r is Ok ==> r->Ok_0 as int == old(self).wal.spec_next_index()
                && final(self).wal.first_index == old(self).wal.first_index
                && final(self).wal.records@ == old(self).wal.records@.push(op)
                && spec_apply_outcome(
                old(self).segments.segments@,
                final(self).segments.segments@,
                r->Ok_0,
                op,
                true,
            ),
            r is Err ==> final(self).wal.first_index == old(self).wal.first_index
                && final(self).wal.records@ == old(self).wal.records@
                && spec_apply_outcome_any(
                old(self).segments.segments@,
                final(self).segments.segments@,
                (old(self).wal.spec_next_index()) as SeqNumberType,
                op,
            ),
    {
        let op_num = match self.wal.last_index() {
            n => n,
        };
        let applied = self.apply_operation(op_num, &op);
        match applied {
            Ok(_) => {},
            Err(e) => {
                return Err(e);
            },
        }
        match self.wal.write(op) {
            Some(seq) => Ok(seq),
            None => Err(
                CollectionError::service_error("operation log is full".to_owned()),
            ),
        }
    }

    /// Replays the whole retained log over the segments, in order; stale
    /// operations are skipped by the per-point version checks. Finishes
    /// with a sync flush of every segment.
    #[verifier::loop_isolation(false)]
    pub fn load_from_wal(&mut self) -> (r: CollectionResult<()>)
        requires
            old(self).wf(),
        ensures
            final(self).wf(),
            r is Ok,
            final(self).wal.first_index == old(self).wal.first_index,
            final(self).wal.segment_capacity == old(self).wal.segment_capacity,
            final(self).wal.records@ == old(self).wal.records@,
            exists|trace: Seq<Seq<Segment>>|
                #[trigger] spec_replay_trace(
                    trace,
                    old(self).segments.segments@,
                    old(self).wal.first_index,
                    old(self).wal.records@,
                    final(self).segments.segments@,
                ),
    {
        let n = self.wal.records.len();
        let first = self.wal.first_index;
        let ghost mut trace: Seq<Seq<Segment>> = seq![self.segments.segments@];
        let mut k: usize = 0;
        while k < n
            invariant
                0 <= k <= n,
                self.wf(),
                self.wal.first_index == old(self).wal.first_index,
                self.wal.segment_capacity == old(self).wal.segment_capacity,
                self.wal.records@ == old(self).wal.records@,
                n == self.wal.records@.len(),
                first == self.wal.first_index,
                trace.len() == k + 1,
                trace[0] == old(self).segments.segments@,
                trace[trace.len() - 1] == self.segments.segments@,
                forall|k2: int|
                    0 <= k2 < k ==> #[trigger] spec_apply_outcome_any(
                        trace[k2],
                        trace[k2 + 1],
                        (first + k2) as SeqNumberType,
                        old(self).wal.records@[k2],
                    ),
            decreases n - k,
        {
            let ghost wal0 = self.wal;
            let op_num: SeqNumberType = first + (k as u64);
            let op = self.wal.records.remove(k);
            proof {
                assert(op == old(self).wal.records@[k as int]);
            }
            let res = self.apply_operation(op_num, &op);
            self.wal.records.insert(k, op);
            proof {
                crate::segment::lemma_remove_insert_update(
                    wal0.records@,
                    k as int,
                    self.wal.records@[k as int],
                );
                assert(self.wal.records@ =~= wal0.records@.update(
                    k as int,
                    self.wal.records@[k as int],
                ));
                assert(self.wal.records@ =~= wal0.records@);
                trace = trace.push(self.segments.segments@);
                assert(spec_apply_outcome_any(
                    trace[k as int],
                    trace[k as int + 1],
                    op_num,
                    old(self).wal.records@[k as int],
                ));
            }
            match res {
                Ok(_) => {},
                Err(_) => {
                    // Replay goes on: a skipped record cannot hold back the
                    // rest of the log.
                },
            }
            k = k + 1;
        }
        let ghost before_flush = self.segments.segments@;
        match self.segments.flush_all(true) {
            Ok(_) => {
                proof {
                    assert(spec_flushed_from(before_flush, self.segments.segments@));
                    assert(spec_replay_trace(
                        trace,
                        old(self).segments.segments@,
                        old(self).wal.first_index,
                        old(self).wal.records@,
                        self.segments.segments@,
                    ));
                }
                Ok(())
            },
            Err(e) => Err(collection_error_of(e)),
        }
    }

    /// Flushes every segment and truncates the log below the durable
    /// watermark.
    pub fn flush_and_ack(&mut self) -> (r: CollectionResult<SeqNumberType>)
        requires
            old(self).wf(),
        ensures
            final(self).wf(),
            r is Ok,
            forall|i: int|
                0 <= i < final(self).segments.segments@.len()
                    ==> (#[trigger] final(self).segments.segments@[i]).persisted_version == old(
                    self,
                ).segments.segments@[i].version && final(self).segments.segments@[i].version
                    == old(self).segments.segments@[i].version,
            final(self).wal.spec_next_index() == old(self).wal.spec_next_index(),
            // Every fully acknowledged whole log segment below the durable
            // watermark was dropped.
            !(final(self).wal.records@.len() >= final(self).wal.segment_capacity
                && final(self).wal.first_index as int + final(self).wal.segment_capacity as int
                - 1 <= r->Ok_0 as int),
            // The returned watermark is durable: no segment persists less.
            forall|i: int|
                0 <= i < final(self).segments.segments@.len() ==> r->Ok_0
                    <= crate::holder::spec_seg_persisted(
                    #[trigger] final(self).segments.segments@[i],
                ),
            // The log is never truncated past the durable watermark.
            final(self).wal.first_index as int <= (if r->Ok_0 as int >= old(
                self,
            ).wal.first_index as int {
                r->Ok_0 as int + 1
            } else {
                old(self).wal.first_index as int
            }),
    {
        let min_persisted = match self.segments.flush_all(true) {
            Ok(v) => v,
            Err(e) => {
                return Err(collection_error_of(e));
            },
        };
        self.wal.ack(min_persisted);
        Ok(min_persisted)
    }

    /// Value-level snapshot of the shard: every segment's snapshot and the
    /// log's continuation point. The log files themselves are copied by the
    /// caller when it wants them; a restore without them starts from
    /// `snapshot_empty_wal`.
    pub fn create_snapshot(&mut self) -> (r: CollectionResult<
        (Vec<SegmentSnapshot>, SeqNumberType)
    >)
        requires
            old(self).wf(),
        ensures
            final(self).wf(),
            final(self).wal == old(self).wal,
            r is Ok,
            r is Ok ==> r->Ok_0.1 == old(self).wal.spec_next_index(),
            r is Ok ==> r->Ok_0.0@.len() == old(self).segments.segments@.len(),
            r is Ok ==> (forall|i: int|
                0 <= i < final(self).segments.segments@.len()
                    ==> crate::segment::spec_snapshot_matches(
                    #[trigger] r->Ok_0.0@[i],
                    final(self).segments.segments@[i],
                )),
    {
        let snaps = match self.segments.snapshot_all_segments() {
            Ok(s) => s,
            Err(e) => {
                return Err(collection_error_of(e));
            },
        };
        let last = self.wal.last_index();
        Ok((snaps, last))
    }

    /// The empty log a snapshot without the log materializes: same
    /// capacity, numbering continued at the snapshot point.
    pub fn snapshot_empty_wal(&self) -> (r: Wal)
        requires
            self.wf(),
        ensures
            r.wf(),
            r.records@.len() == 0,
            r.spec_next_index() == self.wal.spec_next_index(),
            r.segment_capacity == self.wal.segment_capacity,
    {
        Wal::empty_at(self.wal.last_index(), self.wal.segment_capacity)
    }

    /// Sums the per-segment cardinality estimates, saturating at the
    /// machine limit.
    #[verifier::loop_isolation(false)]
    pub fn estimate_cardinality(&self, filter: Option<&Filter>) -> (r: CollectionResult<
        CardinalityEstimation,
    >)
        requires
            self.wf(),
        ensures
            r is Ok,
            (r->Ok_0.min as int, r->Ok_0.exp as int, r->Ok_0.max as int) == spec_sum_estimates(
                self.segments.segments@,
                crate::vector_index::spec_opt_filter(filter),
            ),
    {
        let ghost fo = crate::vector_index::spec_opt_filter(filter);
        let n = self.segments.segments.len();
        let mut acc = CardinalityEstimation::exact(0);
        let mut i: usize = 0;
        proof {
            assert(self.segments.segments@.subrange(0, 0)
                =~= Seq::<Segment>::empty());
        }
        while i < n
            invariant
                0 <= i <= n,
                n == self.segments.segments@.len(),
                (acc.min as int, acc.exp as int, acc.max as int) == spec_sum_estimates(
                    self.segments.segments@.subrange(0, i as int),
                    fo,
                ),
            decreases n - i,
        {
            let e = self.segments.segments[i].estimate_points_count(filter);
            proof {
                lemma_sum_estimates_step(self.segments.segments@, fo, i as int);
                assert((e.min as int, e.exp as int, e.max as int) == spec_segment_estimate(
                    self.segments.segments@[i as int],
                    fo,
                ));
            }
            acc = CardinalityEstimation {
                min: saturating_add(acc.min, e.min),
                exp: saturating_add(acc.exp, e.exp),
                max: saturating_add(acc.max, e.max),
            };
            i = i + 1;
        }
        proof {
            assert(self.segments.segments@.subrange(0, n as int) =~= self.segments.segments@);
        }
        Ok(acc)
    }

    /// All matching external ids across segments: the duplicate-free union
    /// of the per-segment scrolls, ascending.
    #[verifier::loop_isolation(false)]
    #[verifier::rlimit(60)]
    pub fn read_filtered(&self, filter: Option<&Filter>) -> (r: CollectionResult<Vec<PointIdType>>)
        requires
            self.wf(),
        ensures
            r is Ok,
            forall|a: int, b: int|
                0 <= a < b < r->Ok_0@.len() ==> crate::types::point_id_lt(
                    #[trigger] r->Ok_0@[a],
                    #[trigger] r->Ok_0@[b],
                ),
            forall|k: int|
                0 <= k < r->Ok_0@.len() ==> spec_in_some_scroll(
                    self.segments.segments@,
                    crate::vector_index::spec_opt_filter(filter),
                    #[trigger] r->Ok_0@[k],
                ),
            forall|e: PointIdType|
                #[trigger] spec_in_some_scroll(
                    self.segments.segments@,
                    crate::vector_index::spec_opt_filter(filter),
                    e,
                ) ==> r->Ok_0@.contains(e),
    {
        let ghost fo = crate::vector_index::spec_opt_filter(filter);
        let ghost segs = self.segments.segments@;
        let n = self.segments.segments.len();
        let mut all: Vec<PointIdType> = Vec::new();
        let mut i: usize = 0;
        while i < n
            invariant
                0 <= i <= n,
                n == segs.len(),
                segs == self.segments.segments@,
                self.wf(),
                forall|k: int|
                    0 <= k < all@.len() ==> (exists|i2: int|
                        0 <= i2 < i && crate::segment::spec_read_filtered(
                            #[trigger] segs[i2],
                            None,
                            None,
                            fo,
                        ).contains(#[trigger] all@[k])),
                forall|i2: int, e: PointIdType|
                    0 <= i2 < i && #[trigger] crate::segment::spec_read_filtered(
                        segs[i2],
                        None,
                        None,
                        fo,
                    ).contains(e) ==> all@.contains(e),
            decreases n - i,
        {
            let ghost all0 = all@;
            let mut part = self.segments.segments[i].read_filtered(None, None, filter);
            let ghost part0 = part@;
            all.append(&mut part);
            proof {
                assert(all@ == all0 + part0);
                assert forall|k: int| 0 <= k < all@.len() implies (exists|i2: int|
                    0 <= i2 < i + 1 && crate::segment::spec_read_filtered(
                        #[trigger] segs[i2],
                        None,
                        None,
                        fo,
                    ).contains(#[trigger] all@[k])) by {
                    if k < all0.len() {
                        assert(all@[k] == all0[k]);
                    } else {
                        assert(all@[k] == part0[k - all0.len()]);
                        assert(crate::segment::spec_read_filtered(
                            segs[i as int],
                            None,
                            None,
                            fo,
                        ).contains(part0[k - all0.len()]));
                    }
                }
                assert forall|i2: int, e: PointIdType|
                    0 <= i2 < i + 1 && #[trigger] crate::segment::spec_read_filtered(
                        segs[i2],
                        None,
                        None,
                        fo,
                    ).contains(e) implies all@.contains(e) by {
                    if i2 < i {
                        assert(all0.contains(e));
                        let w = choose|w: int| 0 <= w < all0.len() && all0[w] == e;
                        assert(all@[w] == e);
                    } else {
                        let w = choose|w: int| 0 <= w < part0.len() && part0[w] == e;
                        assert(all@[all0.len() + w] == e);
                    }
                }
            }
            i = i + 1;
        }
        // Deduplicate by sorted insertion.
        let m = all.len();
        let mut out: Vec<PointIdType> = Vec::new();
        let mut k: usize = 0;
        while k < m
            invariant
                0 <= k <= m,
                m == all@.len(),
                forall|a: int, b: int|
                    0 <= a < b < out@.len() ==> crate::types::point_id_lt(
                        #[trigger] out@[a],
                        #[trigger] out@[b],
                    ),
                forall|q: int|
                    0 <= q < out@.len() ==> all@.contains(#[trigger] out@[q]),
                forall|k2: int|
                    0 <= k2 < k ==> out@.contains(#[trigger] all@[k2]),
            decreases m - k,
        {
            let e = all[k];
            let mut seen = false;
            let mut j: usize = 0;
            let olen = out.len();
            while j < olen
                invariant
                    0 <= j <= olen,
                    olen == out@.len(),
                    seen == (exists|q: int| 0 <= q < j && out@[q] == e),
                decreases olen - j,
            {
                if out[j] == e {
                    seen = true;
                }
                j = j + 1;
            }
            if !seen {
                proof {
                    if out@.contains(e) {
                        let w = choose|w: int| 0 <= w < out@.len() && out@[w] == e;
                    }
                }
                // insert in ascending order
                let mut p: usize = 0;
                let olen2 = out.len();
                while p < olen2 && out[p].lt(&e)
                    invariant
                        0 <= p <= olen2,
                        olen2 == out@.len(),
                        forall|q: int|
                            0 <= q < p ==> crate::types::point_id_lt(#[trigger] out@[q], e),
                    decreases olen2 - p,
                {
                    p = p + 1;
                }
                let ghost out0 = out@;
                out.insert(p, e);
                proof {
                    out0.insert_ensures(p as int, e);
                    assert forall|q: int| (p as int) < q && q < out@.len()
                        implies crate::types::point_id_lt(e, #[trigger] out@[q]) by {
                        assert(out@[q] == out0[q - 1]);
                        assert(!crate::types::point_id_lt(out0[p as int], e) || (p as int)
                            >= out0.len());
                        if (p as int) < out0.len() {
                            assert(out0[p as int] != e);
                            if q - 1 > p as int {
                                assert(crate::types::point_id_lt(out0[p as int], out0[q - 1]));
                            }
                        }
                    }
                    assert forall|a: int, b: int|
                        0 <= a < b < out@.len() implies crate::types::point_id_lt(
                        #[trigger] out@[a],
                        #[trigger] out@[b],
                    ) by {
                        if a < p as int && b > p as int {
                            assert(out@[a] == out0[a] && out@[b] == out0[b - 1]);
                            assert(crate::types::point_id_lt(out0[a], e));
                        } else if a < p as int && b == p as int {
                        } else if a == p as int {
                        } else if b < p as int {
                            assert(out@[a] == out0[a] && out@[b] == out0[b]);
                        } else if a > p as int {
                            assert(out@[a] == out0[a - 1] && out@[b] == out0[b - 1]);
                        }
                    }
                    assert forall|k2: int| 0 <= k2 < k + 1 implies out@.contains(
                        #[trigger] all@[k2],
                    ) by {
                        if k2 < k {
                            assert(out0.contains(all@[k2]));
                            let w = choose|w: int| 0 <= w < out0.len() && out0[w] == all@[k2];
                            if w < p as int {
                                assert(out@[w] == all@[k2]);
                            } else {
                                assert(out@[w + 1] == all@[k2]);
                            }
                        } else {
                            assert(out@[p as int] == e);
                        }
                    }
                    assert forall|q: int| 0 <= q < out@.len() implies all@.contains(
                        #[trigger] out@[q],
                    ) by {
                        if q != p as int {
                            let q0 = if q < p as int {
                                q
                            } else {
                                q - 1
                            };
                            assert(out@[q] == out0[q0]);
                        } else {
                            assert(0 <= k < all@.len() && all@[k as int] == e);
                        }
                    }
                }
            } else {
                proof {
                    let w = choose|q: int| 0 <= q < out@.len() && out@[q] == e;
                    assert(out@.contains(all@[k as int]));
                }
            }
            k = k + 1;
        }
        proof {
            assert forall|k2: int| 0 <= k2 < out@.len() implies spec_in_some_scroll(
                segs,
                fo,
                #[trigger] out@[k2],
            ) by {
                assert(all@.contains(out@[k2]));
                let w = choose|w: int| 0 <= w < all@.len() && all@[w] == out@[k2];
            }
            assert forall|e: PointIdType| #[trigger] spec_in_some_scroll(segs, fo, e)
                implies out@.contains(e) by {
                assert(all@.contains(e));
                let w = choose|w: int| 0 <= w < all@.len() && all@[w] == e;
                assert(out@.contains(all@[w]));
            }
        }
        Ok(out)
    }
}

/// The estimate one segment reports for a filter.
pub open spec fn spec_segment_estimate(seg: Segment, f: Option<Filter>) -> (int, int, int) {
    let total = seg.id_tracker.spec_points_count() as int;
    match f {
        None => (total, total, total),
        Some(ff) => crate::payload_index::spec_filter_estimate(
            seg.payload_index,
            seg.payload_storage,
            seg.id_tracker,
            ff,
            total,
        ),
    }
}

/// Saturates a sum at the machine limit.
pub open spec fn spec_sat(x: int) -> int {
    if x > usize::MAX as int {
        usize::MAX as int
    } else {
        x
    }
}

/// Component-wise saturating sum of the per-segment estimates.
pub open spec fn spec_sum_estimates(segs: Seq<Segment>, f: Option<Filter>) -> (int, int, int)
    decreases segs.len(),
{
    if segs.len() == 0 {
        (0, 0, 0)
    } else {
        let rest = spec_sum_estimates(segs.drop_last(), f);
        let e = spec_segment_estimate(segs.last(), f);
        (spec_sat(rest.0 + e.0), spec_sat(rest.1 + e.1), spec_sat(rest.2 + e.2))
    }
}

/// One step of the saturating sum at a prefix boundary.
pub proof fn lemma_sum_estimates_step(segs: Seq<Segment>, f: Option<Filter>, i: int)
    requires
        0 <= i < segs.len(),
    ensures
        spec_sum_estimates(segs.subrange(0, i + 1), f) == ({
            let rest = spec_sum_estimates(segs.subrange(0, i), f);
            let e = spec_segment_estimate(segs[i], f);
            (spec_sat(rest.0 + e.0), spec_sat(rest.1 + e.1), spec_sat(rest.2 + e.2))
        }),
{
    assert(segs.subrange(0, i + 1).drop_last() =~= segs.subrange(0, i));
    assert(segs.subrange(0, i + 1).last() == segs[i]);
}

/// Health of the shard, as its info reports it.
#[derive(Clone, Copy, PartialEq, Eq, Structural, Debug)]
pub enum CollectionStatus {
    Green,
    Yellow,
    Red,
}

/// The aggregated description of one shard.
pub struct CollectionInfo {
    pub status: CollectionStatus,
    pub points_count: usize,
    pub segments_count: usize,
    pub indexed_vectors_count: usize,
}

impl LocalShard {
    /// Aggregates the shard's segments: total live points, how many points
    /// sit in indexed segments, and the health colour (red when an error
    /// latch is armed, yellow while a special segment exists).
    #[verifier::loop_isolation(false)]
    pub fn local_shard_info(&self) -> (r: CollectionInfo)
        requires
            self.wf(),
        ensures
            r.segments_count == self.segments.segments@.len(),
            spec_total_points(self.segments.segments@) <= usize::MAX ==> r.points_count as int
                == spec_total_points(self.segments.segments@),
            r.points_count as int <= spec_total_points(self.segments.segments@),
            spec_total_indexed_points(self.segments.segments@) <= usize::MAX
                ==> r.indexed_vectors_count as int == spec_total_indexed_points(
                self.segments.segments@,
            ),
            r.indexed_vectors_count as int <= spec_total_indexed_points(
                self.segments.segments@,
            ),
            (exists|i: int|
                0 <= i < self.segments.segments@.len() && (
                #[trigger] self.segments.segments@[i]).error_status is Some) ==> r.status is Red,
            (forall|i: int|
                0 <= i < self.segments.segments@.len() ==> (
                #[trigger] self.segments.segments@[i]).error_status is None
                    && !(self.segments.segments@[i].segment_type is Special)) ==> r.status
                is Green,
    {
        let n = self.segments.segments.len();
        let mut points_count: usize = 0;
        let mut indexed_vectors_count: usize = 0;
        let mut any_error = false;
        let mut any_special = false;
        let mut i: usize = 0;
        while i < n
            invariant
                0 <= i <= n,
                n == self.segments.segments@.len(),
                points_count as int <= spec_total_points(
                    self.segments.segments@.subrange(0, i as int),
                ),
                spec_total_points(self.segments.segments@.subrange(0, i as int)) <= usize::MAX
                    ==> points_count as int == spec_total_points(
                    self.segments.segments@.subrange(0, i as int),
                ),
                indexed_vectors_count as int <= spec_total_indexed_points(
                    self.segments.segments@.subrange(0, i as int),
                ),
                spec_total_indexed_points(self.segments.segments@.subrange(0, i as int))
                    <= usize::MAX ==> indexed_vectors_count as int == spec_total_indexed_points(
                    self.segments.segments@.subrange(0, i as int),
                ),
                any_error == (exists|j: int|
                    0 <= j < i && (#[trigger] self.segments.segments@[j]).error_status is Some),
                any_special == (exists|j: int|
                    0 <= j < i && (#[trigger] self.segments.segments@[j]).segment_type
                        is Special),
            decreases n - i,
        {
            let seg = &self.segments.segments[i];
            let live = seg.points_count();
            proof {
                lemma_total_points_step(self.segments.segments@, i as int);
                lemma_total_points_nonneg(self.segments.segments@.subrange(0, i as int));
                lemma_total_indexed_points_step(self.segments.segments@, i as int);
                lemma_total_indexed_points_nonneg(
                    self.segments.segments@.subrange(0, i as int),
                );
            }
            points_count = saturating_add(points_count, live);
            if matches!(seg.segment_type(), crate::types::SegmentType::Indexed) {
                indexed_vectors_count = saturating_add(indexed_vectors_count, live);
            }
            if seg.check_error().is_some() {
                any_error = true;
            }
            if matches!(seg.segment_type(), crate::types::SegmentType::Special) {
                any_special = true;
            }
            proof {
                if any_error {
                }
            }
            i = i + 1;
        }
        proof {
            assert(self.segments.segments@.subrange(0, n as int) =~= self.segments.segments@);
        }
        let status = if any_error {
            CollectionStatus::Red
        } else if any_special {
            CollectionStatus::Yellow
        } else {
            CollectionStatus::Green
        };
        CollectionInfo { status, points_count, segments_count: n, indexed_vectors_count }
    }
}

/// Total live points over a list of segments.
pub open spec fn spec_total_points(segs: Seq<Segment>) -> int
    decreases segs.len(),
{
    if segs.len() == 0 {
        0
    } else {
        spec_total_points(segs.drop_last()) + segs.last().id_tracker.spec_points_count()
    }
}

/// The live points that sit in indexed segments.
pub open spec fn spec_total_indexed_points(segs: Seq<Segment>) -> int
    decreases segs.len(),
{
    if segs.len() == 0 {
        0
    } else {
        spec_total_indexed_points(segs.drop_last()) + (if segs.last().segment_type
            is Indexed {
            segs.last().id_tracker.spec_points_count()
        } else {
            0
        })
    }
}

/// The indexed total is never negative.
pub proof fn lemma_total_indexed_points_nonneg(segs: Seq<Segment>)
    ensures
        spec_total_indexed_points(segs) >= 0,
    decreases segs.len(),
{
    if segs.len() > 0 {
        lemma_total_indexed_points_nonneg(segs.drop_last());
    }
}

/// Unfolds one step of the indexed total at a prefix boundary.
pub proof fn lemma_total_indexed_points_step(segs: Seq<Segment>, i: int)
    requires
        0 <= i < segs.len(),
    ensures
        spec_total_indexed_points(segs.subrange(0, i + 1)) == spec_total_indexed_points(
            segs.subrange(0, i),
        ) + (if segs[i].segment_type is Indexed {
            segs[i].id_tracker.spec_points_count()
        } else {
            0
        }),
{
    assert(segs.subrange(0, i + 1).drop_last() =~= segs.subrange(0, i));
    assert(segs.subrange(0, i + 1).last() == segs[i]);
}

/// The total is never negative.
pub proof fn lemma_total_points_nonneg(segs: Seq<Segment>)
    ensures
        spec_total_points(segs) >= 0,
    decreases segs.len(),
{
    if segs.len() > 0 {
        lemma_total_points_nonneg(segs.drop_last());
    }
}

/// Unfolds one step of the total at a prefix boundary.
pub proof fn lemma_total_points_step(segs: Seq<Segment>, i: int)
    requires
        0 <= i < segs.len(),
    ensures
        spec_total_points(segs.subrange(0, i + 1)) == spec_total_points(segs.subrange(0, i))
            + segs[i].id_tracker.spec_points_count(),
{
    assert(segs.subrange(0, i + 1).drop_last() =~= segs.subrange(0, i));
    assert(segs.subrange(0, i + 1).last() == segs[i]);
}

/// Saturating addition on sizes.
fn saturating_add(a: usize, b: usize) -> (r: usize)
    ensures
        r as int == (if a + b <= usize::MAX {
            a + b
        } else {
            usize::MAX as int
        }),
{
    if a <= usize::MAX - b {
        a + b
    } else {
        usize::MAX
    }
}

/// Lifts a segment error to the collection level, keeping the kind.
pub fn collection_error_of(e: OperationError) -> (r: CollectionError)
    ensures
        e is PointIdError ==> r is PointNotFound && r->PointNotFound_missed_point_id
            == e->PointIdError_missed_point_id,
        e is Cancelled ==> r is Cancelled,
        (e is ServiceError || e is WrongVector || e is TypeInferenceError) ==> r is BadInput || r
            is ServiceError,
{
    match e {
        OperationError::WrongVector { expected_dim, received_dim } => CollectionError::BadInput {
            description: "wrong vector dimension".to_owned(),
        },
        OperationError::PointIdError { missed_point_id } => CollectionError::PointNotFound {
            missed_point_id,
        },
        OperationError::TypeInferenceError { field_name } => CollectionError::BadInput {
            description: "cannot infer the field type".to_owned(),
        },
        OperationError::ServiceError { description } => CollectionError::ServiceError {
            error: description,
            backtrace: None,
        },
        OperationError::Cancelled { description } => CollectionError::Cancelled { description },
    }
}

/// Whether an upsert's vector names are unique, as the segment requires.
#[verifier::loop_isolation(false)]
pub fn check_named_vectors(nv: &NamedVectors) -> (r: bool)
    ensures
        r == nv.wf(),
{
    let n = nv.pairs.len();
    let mut i: usize = 0;
    let mut ok = true;
    while i < n
        invariant
            0 <= i <= n,
            n == nv.pairs@.len(),
            ok == (forall|a: int, b: int|
                0 <= a < b < i ==> (#[trigger] nv.pairs@[a]).0@ != (#[trigger] nv.pairs@[b]).0@),
        decreases n - i,
    {
        let ghost ok0 = ok;
        let mut j: usize = 0;
        while j < i
            invariant
                0 <= j <= i <= n,
                n == nv.pairs@.len(),
                ok == (ok0 && (forall|b: int|
                    0 <= b < j ==> (#[trigger] nv.pairs@[b]).0@ != nv.pairs@[i as int].0@)),
            decreases i - j,
        {
            if nv.pairs[j].0 == nv.pairs[i].0 {
                ok = false;
            }
            j = j + 1;
        }
        proof {
            if ok0 && (forall|b: int|
                0 <= b < i ==> (#[trigger] nv.pairs@[b]).0@ != nv.pairs@[i as int].0@) {
                assert forall|a: int, b: int|
                    0 <= a < b < i + 1 implies (#[trigger] nv.pairs@[a]).0@ != (
                    #[trigger] nv.pairs@[b]).0@ by {
                    if b == i {
                        assert(nv.pairs@[a].0@ != nv.pairs@[i as int].0@);
                    }
                }
            } else {
                assert(!(forall|a: int, b: int|
                    0 <= a < b < i + 1 ==> (#[trigger] nv.pairs@[a]).0@ != (
                    #[trigger] nv.pairs@[b]).0@)) by {
                    if !ok0 {
                        let (a0, b0) = choose|a0: int, b0: int|
                            0 <= a0 < b0 < i && (#[trigger] nv.pairs@[a0]).0@ == (
                            #[trigger] nv.pairs@[b0]).0@;
                        assert(0 <= a0 < b0 < i + 1 && nv.pairs@[a0].0@ == nv.pairs@[b0].0@);
                    } else {
                        let b0 = choose|b0: int|
                            0 <= b0 < i && (#[trigger] nv.pairs@[b0]).0@
                                == nv.pairs@[i as int].0@;
                        assert(0 <= b0 < i + 1 && nv.pairs@[b0].0@ == nv.pairs@[i as int].0@);
                    }
                }
            }
        }
        i = i + 1;
    }
    ok
}

/// Whether a payload's keys are unique, as the storage requires.
#[verifier::loop_isolation(false)]
pub fn check_payload(p: &Payload) -> (r: bool)
    ensures
        r == p.wf(),
{
    let n = p.entries.len();
    let mut i: usize = 0;
    let mut ok = true;
    while i < n
        invariant
            0 <= i <= n,
            n == p.entries@.len(),
            ok == (forall|a: int, b: int|
                0 <= a < b < i ==> (#[trigger] p.entries@[a]).0@ != (#[trigger] p.entries@[b]).0@),
        decreases n - i,
    {
        let ghost ok0 = ok;
        let mut j: usize = 0;
        while j < i
            invariant
                0 <= j <= i <= n,
                n == p.entries@.len(),
                ok == (ok0 && (forall|b: int|
                    0 <= b < j ==> (#[trigger] p.entries@[b]).0@ != p.entries@[i as int].0@)),
            decreases i - j,
        {
            if p.entries[j].0 == p.entries[i].0 {
                ok = false;
            }
            j = j + 1;
        }
        proof {
            if ok0 && (forall|b: int|
                0 <= b < i ==> (#[trigger] p.entries@[b]).0@ != p.entries@[i as int].0@) {
                assert forall|a: int, b: int|
                    0 <= a < b < i + 1 implies (#[trigger] p.entries@[a]).0@ != (
                    #[trigger] p.entries@[b]).0@ by {
                    if b == i {
                        assert(p.entries@[a].0@ != p.entries@[i as int].0@);
                    }
                }
            } else {
                assert(!(forall|a: int, b: int|
                    0 <= a < b < i + 1 ==> (#[trigger] p.entries@[a]).0@ != (
                    #[trigger] p.entries@[b]).0@)) by {
                    if !ok0 {
                        let (a0, b0) = choose|a0: int, b0: int|
                            0 <= a0 < b0 < i && (#[trigger] p.entries@[a0]).0@ == (
                            #[trigger] p.entries@[b0]).0@;
                        assert(0 <= a0 < b0 < i + 1 && p.entries@[a0].0@ == p.entries@[b0].0@);
                    } else {
                        let b0 = choose|b0: int|
                            0 <= b0 < i && (#[trigger] p.entries@[b0]).0@
                                == p.entries@[i as int].0@;
                        assert(0 <= b0 < i + 1 && p.entries@[b0].0@ == p.entries@[i as int].0@);
                    }
                }
            }
        }
        i = i + 1;
    }
    ok
}

} // verus!
