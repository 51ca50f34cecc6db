//! The proxy segment: a transparent front for a segment being optimized.
//! Writes go to a side write-segment and deletions are recorded; the
//! wrapped segment is never touched, which is what makes a cancelled
//! optimization revert observationally invisible.

use vstd::prelude::*;
use crate::types::{PointIdType, SeqNumberType};
use crate::errors::OperationResult;
use crate::segment::{Segment, NamedVectors};
use crate::shard::{spec_upsert_step, spec_delete_step};

verus! {

/// A segment under optimization: reads merge the wrapped (frozen) segment
/// with the write segment; writes go to the write segment only.
pub struct ProxySegment {
    pub wrapped_segment: Segment,
    pub write_segment: Segment,
    pub deleted_points: Vec<PointIdType>,
}

impl ProxySegment {
    pub open spec fn wf(&self) -> bool {
        &&& self.wrapped_segment.wf()
        &&& self.write_segment.wf()
    }

    pub fn new(wrapped_segment: Segment, write_segment: Segment) -> (r: Self)
        requires
            wrapped_segment.wf(),
            write_segment.wf(),
        ensures
            r.wf(),
            r.wrapped_segment == wrapped_segment,
            r.write_segment == write_segment,
            r.deleted_points@.len() == 0,
    {
        ProxySegment { wrapped_segment, write_segment, deleted_points: Vec::new() }
    }

    /// Writes go to the write segment; the wrapped segment stays frozen.
    pub fn upsert_vector(
        &mut self,
        op_num: SeqNumberType,
        point_id: PointIdType,
        vectors: &NamedVectors,
    ) -> (r: OperationResult<bool>)
        requires
            old(self).wf(),
            vectors.wf(),
        ensures
            final(self).wf(),
            final(self).wrapped_segment == old(self).wrapped_segment,
            final(self).deleted_points@ == old(self).deleted_points@,
            // The upsert lands on the write segment, with the same
            // effect-and-outcome relation the segment operation states.
            spec_upsert_step(
                old(self).write_segment,
                final(self).write_segment,
                op_num,
                point_id,
                *vectors,
                r is Ok,
            ),
    {
        self.write_segment.upsert_vector(op_num, point_id, vectors)
    }

    /// A deletion is recorded against the wrapped segment and applied to
    /// the write segment; the wrapped segment stays frozen.
    pub fn delete_point(&mut self, op_num: SeqNumberType, point_id: PointIdType) -> (r:
        OperationResult<bool>)
        requires
            old(self).wf(),
        ensures
            final(self).wf(),
            final(self).wrapped_segment == old(self).wrapped_segment,
            // The deletion is recorded exactly when the wrapped segment
            // holds the point, so a merge knows to drop it.
            old(self).wrapped_segment.spec_has_point(point_id) ==> final(self).deleted_points@
                == old(self).deleted_points@.push(point_id),
            !old(self).wrapped_segment.spec_has_point(point_id) ==> final(self).deleted_points@
                == old(self).deleted_points@,
            // The deletion lands on the write segment, with the same
            // effect-and-outcome relation the segment operation states.
            spec_delete_step(
                old(self).write_segment,
                final(self).write_segment,
                op_num,
                point_id,
                r is Ok,
            ),
    {
        if self.wrapped_segment.has_point(point_id) {
            self.deleted_points.push(point_id);
        }
        self.write_segment.delete_point(op_num, point_id)
    }

    /// A read sees the union: the point is visible when the write segment
    /// holds it, or the wrapped segment holds it and it was not deleted
    /// during the optimization window.
    #[verifier::loop_isolation(false)]
    pub fn has_point(&self, point_id: PointIdType) -> (r: bool)
        requires
            self.wf(),
        ensures
            r == (self.write_segment.spec_has_point(point_id) || (
            self.wrapped_segment.spec_has_point(point_id) && !self.deleted_points@.contains(
                point_id,
            ))),
    {
        if self.write_segment.has_point(point_id) {
            return true;
        }
        if !self.wrapped_segment.has_point(point_id) {
            return false;
        }
        let n = self.deleted_points.len();
        let mut k: usize = 0;
        while k < n
            invariant
                0 <= k <= n,
                n == self.deleted_points@.len(),
                forall|j: int| 0 <= j < k ==> self.deleted_points@[j] != point_id,
            decreases n - k,
        {
            if self.deleted_points[k] == point_id {
                proof {
                    assert(self.deleted_points@.contains(point_id));
                }
                return false;
            }
            k = k + 1;
        }
        proof {
            if self.deleted_points@.contains(point_id) {
                let w = choose|w: int|
                    0 <= w < self.deleted_points@.len() && self.deleted_points@[w] == point_id;
                assert(self.deleted_points@[w] != point_id);
            }
        }
        true
    }

    /// Cancellation: hands back the wrapped segment exactly as it was when
    /// the proxy was created (no write ever touched it), together with the
    /// write segment holding everything written during the window. The
    /// caller re-applies the window's operations, which the per-point
    /// version checks make safe.
    pub fn revert(self) -> (r: (Segment, Segment))
        requires
            self.wf(),
        ensures
            r.0 == self.wrapped_segment,
            r.1 == self.write_segment,
            r.0.wf(),
            r.1.wf(),
    {
        (self.wrapped_segment, self.write_segment)
    }
}

} // verus!
