//! Optimizers: the background rules that pick segments to reshape, and
//! the in-place promotion of a plain segment to an indexed one, with
//! cooperative cancellation.

use vstd::prelude::*;
use crate::types::{SegmentType, HnswConfig, Indexes};
use crate::errors::{OperationError, OperationResult};
use crate::holder::SegmentHolder;
use crate::segment::Segment;
use crate::vector_index::VectorIndexEnum;

verus! {

/// The size thresholds that drive optimizer selection.
#[derive(Clone, Copy, PartialEq, Eq, Structural, Debug)]
pub struct OptimizerThresholds {
    pub max_segment_size: usize,
    pub memmap_threshold: usize,
    pub indexing_threshold: usize,
}

/// Merges small plain segments while more than the wanted number exist.
pub struct MergeOptimizer {
    pub default_segments_number: usize,
    pub thresholds: OptimizerThresholds,
}

/// Promotes a plain segment to an indexed one once it is large enough.
pub struct IndexingOptimizer {
    pub thresholds: OptimizerThresholds,
}

/// Rebuilds a segment whose tombstone share grew too large.
pub struct VacuumOptimizer {
    /// Tombstone share threshold, in thousandths.
    pub deleted_threshold_permille: usize,
    pub min_vectors_number: usize,
}

/// Number of allocated offsets with no live point, as the segment reports
/// it.
pub open spec fn spec_dead_count(seg: Segment) -> int {
    Seq::new(
        seg.id_tracker.spec_internal_size(),
        |i: int| crate::id_tracker::ext_of(
            seg.id_tracker.spec_links(),
            i as crate::types::PointOffsetType,
        ) is None,
    ).filter(|b: bool| b).len() as int
}

/// A segment the indexing optimizer would promote.
pub open spec fn spec_indexing_qualifies(t: OptimizerThresholds, seg: Segment) -> bool {
    seg.segment_type is Plain && seg.id_tracker.spec_points_count() >= t.indexing_threshold
}

/// A segment the merge optimizer would take.
pub open spec fn spec_merge_qualifies(t: OptimizerThresholds, seg: Segment) -> bool {
    seg.segment_type is Plain && seg.id_tracker.spec_points_count() <= t.max_segment_size
}

/// A segment the vacuum optimizer would rebuild: enough points, and a
/// tombstone share above the threshold (in thousandths, clamped to one).
pub open spec fn spec_vacuum_qualifies(v: VacuumOptimizer, seg: Segment) -> bool {
    let live = seg.id_tracker.spec_points_count() as int;
    let dead = spec_dead_count(seg);
    let perm = if v.deleted_threshold_permille > 1000 {
        1000int
    } else {
        v.deleted_threshold_permille as int
    };
    live >= v.min_vectors_number && dead * 1000 > (dead + live) * perm
}

/// The merge optimizer the collection fixtures run with.
pub fn get_merge_optimizer(default_segments_number: usize) -> (r: MergeOptimizer)
    ensures
        r.default_segments_number == default_segments_number,
        r.thresholds.max_segment_size == 100000,
        r.thresholds.memmap_threshold == 1000000,
        r.thresholds.indexing_threshold == 1000000,
{
    MergeOptimizer {
        default_segments_number,
        thresholds: OptimizerThresholds {
            max_segment_size: 100000,
            memmap_threshold: 1000000,
            indexing_threshold: 1000000,
        },
    }
}

/// The indexing optimizer the collection fixtures run with: a low
/// indexing threshold so small segments already get promoted.
pub fn get_indexing_optimizer(indexing_threshold: usize) -> (r: IndexingOptimizer)
    ensures
        r.thresholds.indexing_threshold == indexing_threshold,
        r.thresholds.memmap_threshold == indexing_threshold,
        r.thresholds.max_segment_size == 100000,
    {
    IndexingOptimizer {
        thresholds: OptimizerThresholds {
            max_segment_size: 100000,
            memmap_threshold: indexing_threshold,
            indexing_threshold,
        },
    }
}

impl IndexingOptimizer {
    /// Plain segments that grew past the indexing threshold.
    #[verifier::loop_isolation(false)]
    pub fn check_condition(&self, holder: &SegmentHolder) -> (r: Vec<usize>)
        requires
            holder.wf(),
        ensures
            forall|k: int|
                0 <= k < r@.len() ==> (#[trigger] r@[k]) < holder.segments@.len()
                    && spec_indexing_qualifies(
                    self.thresholds,
                    holder.segments@[r@[k] as int],
                ),
            forall|i: int|
                0 <= i < holder.segments@.len() && spec_indexing_qualifies(
                    self.thresholds,
                    #[trigger] holder.segments@[i],
                ) ==> (exists|k: int| 0 <= k < r@.len() && (#[trigger] r@[k]) as int == i),
    {
        let n = holder.segments.len();
        let mut out: Vec<usize> = Vec::new();
        let mut i: usize = 0;
        while i < n
            invariant
                0 <= i <= n,
                n == holder.segments@.len(),
                forall|k: int|
                    0 <= k < out@.len() ==> (#[trigger] out@[k]) < n && spec_indexing_qualifies(
                        self.thresholds,
                        holder.segments@[out@[k] as int],
                    ),
                forall|i2: int|
                    0 <= i2 < i && spec_indexing_qualifies(
                        self.thresholds,
                        #[trigger] holder.segments@[i2],
                    ) ==> (exists|k: int|
                        0 <= k < out@.len() && (#[trigger] out@[k]) as int == i2),
            decreases n - i,
        {
            let seg = &holder.segments[i];
            if matches!(seg.segment_type(), SegmentType::Plain) && seg.points_count()
                >= self.thresholds.indexing_threshold {
                let ghost out0 = out@;
                out.push(i);
                proof {
                    assert forall|i2: int|
                        0 <= i2 < i + 1 && spec_indexing_qualifies(
                            self.thresholds,
                            #[trigger] holder.segments@[i2],
                        ) implies (exists|k: int|
                        0 <= k < out@.len() && (#[trigger] out@[k]) as int == i2) by {
                        if i2 < i {
                            let w = choose|k: int|
                                0 <= k < out0.len() && (#[trigger] out0[k]) as int == i2;
                            assert(out@[w] == out0[w]);
                        } else {
                            assert(out@[out@.len() - 1] == i);
                        }
                    }
                }
            }
            i = i + 1;
        }
        out
    }

    /// Promotes one segment in place: the vector indexes become built
    /// graph indexes and the segment stops accepting appends. When the
    /// stop flag is raised nothing changes and the optimization reports
    /// cancellation; every point stays readable either way.
    #[verifier::loop_isolation(false)]
    pub fn optimize(
        &self,
        holder: &mut SegmentHolder,
        id: usize,
        hnsw_config: HnswConfig,
        stopped: bool,
    ) -> (r: OperationResult<()>)
        requires
            old(holder).wf(),
            id < old(holder).segments@.len(),
        ensures
            final(holder).wf(),
            final(holder).segments@.len() == old(holder).segments@.len(),
            stopped ==> r is Err && r->Err_0 is Cancelled && *final(holder) == *old(holder),
            !stopped ==> r is Ok && ({
                let pre = old(holder).segments@[id as int];
                let post = final(holder).segments@[id as int];
                &&& post.segment_type is Indexed
                &&& !post.appendable_flag
                &&& post.id_tracker == pre.id_tracker
                &&& post.payload_storage == pre.payload_storage
                &&& post.version == pre.version
                &&& post.vector_data@.len() == pre.vector_data@.len()
                &&& (forall|i: int|
                    0 <= i < post.vector_data@.len()
                        ==> (#[trigger] post.vector_data@[i]).0
                        == pre.vector_data@[i].0
                        && post.vector_data@[i].1.vector_storage
                        == pre.vector_data@[i].1.vector_storage)
            }),
            !stopped ==> (forall|j: int|
                0 <= j < final(holder).segments@.len() && j != id
                    ==> #[trigger] final(holder).segments@[j] == old(holder).segments@[j]),
    {
        if stopped {
            return Err(
                OperationError::Cancelled {
                    description: "optimization interrupted by the stop flag".to_owned(),
                },
            );
        }
        let ghost cur0 = holder.segments@;
        let mut seg = holder.segments.remove(id);
        let ghost seg0 = seg;
        let n = seg.vector_data.len();
        let mut i: usize = 0;
        while i < n
            invariant
                0 <= i <= n,
                seg.vector_data@.len() == n,
                seg == (Segment { vector_data: seg.vector_data, ..seg0 }),
                seg0.wf(),
                forall|j: int| i <= j < n ==> #[trigger] seg.vector_data@[j] == seg0.vector_data@[j],
                forall|j: int|
                    0 <= j < i ==> (#[trigger] seg.vector_data@[j]).0 == seg0.vector_data@[j].0
                        && seg.vector_data@[j].1.vector_storage
                        == seg0.vector_data@[j].1.vector_storage,
            decreases n - i,
        {
            let ghost vcur = seg.vector_data@;
            let mut pair = seg.vector_data.remove(i);
            pair.1.vector_index = VectorIndexEnum::new_hnsw(hnsw_config);
            match pair.1.vector_index.build_index(false) {
                Ok(_) => {},
                Err(_) => {
                    proof {
                        assert(false);
                    }
                },
            }
            seg.vector_data.insert(i, pair);
            proof {
                crate::segment::lemma_remove_insert_update(
                    vcur,
                    i as int,
                    seg.vector_data@[i as int],
                );
                assert(seg.vector_data@ =~= vcur.update(i as int, seg.vector_data@[i as int]));
            }
            i = i + 1;
        }
        seg.segment_type = SegmentType::Indexed;
        seg.appendable_flag = false;
        proof {
            assert(seg.wf());
        }
        holder.segments.insert(id, seg);
        proof {
            crate::segment::lemma_remove_insert_update(
                cur0,
                id as int,
                holder.segments@[id as int],
            );
            assert(holder.segments@ =~= cur0.update(id as int, holder.segments@[id as int]));
        }
        Ok(())
    }
}

impl MergeOptimizer {
    /// Plain segments eligible for merging: small ones, while more than
    /// the wanted number of segments exist.
    #[verifier::loop_isolation(false)]
    pub fn check_condition(&self, holder: &SegmentHolder) -> (r: Vec<usize>)
        requires
            holder.wf(),
        ensures
            holder.segments@.len() <= self.default_segments_number ==> r@.len() == 0,
            forall|k: int|
                0 <= k < r@.len() ==> (#[trigger] r@[k]) < holder.segments@.len()
                    && spec_merge_qualifies(self.thresholds, holder.segments@[r@[k] as int]),
            holder.segments@.len() > self.default_segments_number ==> (forall|i: int|
                0 <= i < holder.segments@.len() && spec_merge_qualifies(
                    self.thresholds,
                    #[trigger] holder.segments@[i],
                ) ==> (exists|k: int| 0 <= k < r@.len() && (#[trigger] r@[k]) as int == i)),
    {
        let n = holder.segments.len();
        let mut out: Vec<usize> = Vec::new();
        if n <= self.default_segments_number {
            return out;
        }
        let mut i: usize = 0;
        while i < n
            invariant
                0 <= i <= n,
                n == holder.segments@.len(),
                forall|k: int|
                    0 <= k < out@.len() ==> (#[trigger] out@[k]) < n && spec_merge_qualifies(
                        self.thresholds,
                        holder.segments@[out@[k] as int],
                    ),
                forall|i2: int|
                    0 <= i2 < i && spec_merge_qualifies(
                        self.thresholds,
                        #[trigger] holder.segments@[i2],
                    ) ==> (exists|k: int|
                        0 <= k < out@.len() && (#[trigger] out@[k]) as int == i2),
            decreases n - i,
        {
            let seg = &holder.segments[i];
            if matches!(seg.segment_type(), SegmentType::Plain) && seg.points_count()
                <= self.thresholds.max_segment_size {
                let ghost out0 = out@;
                out.push(i);
                proof {
                    assert forall|i2: int|
                        0 <= i2 < i + 1 && spec_merge_qualifies(
                            self.thresholds,
                            #[trigger] holder.segments@[i2],
                        ) implies (exists|k: int|
                        0 <= k < out@.len() && (#[trigger] out@[k]) as int == i2) by {
                        if i2 < i {
                            let w = choose|k: int|
                                0 <= k < out0.len() && (#[trigger] out0[k]) as int == i2;
                            assert(out@[w] == out0[w]);
                        } else {
                            assert(out@[out@.len() - 1] == i);
                        }
                    }
                }
            }
            i = i + 1;
        }
        out
    }
}

impl VacuumOptimizer {
    /// Segments whose tombstone share exceeds the threshold and that are
    /// large enough to be worth rebuilding.
    #[verifier::loop_isolation(false)]
    pub fn check_condition(&self, holder: &SegmentHolder) -> (r: Vec<usize>)
        requires
            holder.wf(),
        ensures
            forall|k: int|
                0 <= k < r@.len() ==> (#[trigger] r@[k]) < holder.segments@.len()
                    && spec_vacuum_qualifies(*self, holder.segments@[r@[k] as int]),
            forall|i: int|
                0 <= i < holder.segments@.len() && spec_vacuum_qualifies(
                    *self,
                    #[trigger] holder.segments@[i],
                ) ==> (exists|k: int| 0 <= k < r@.len() && (#[trigger] r@[k]) as int == i),
    {
        let n = holder.segments.len();
        let mut out: Vec<usize> = Vec::new();
        let mut i: usize = 0;
        while i < n
            invariant
                0 <= i <= n,
                n == holder.segments@.len(),
                forall|k: int|
                    0 <= k < out@.len() ==> (#[trigger] out@[k]) < n && spec_vacuum_qualifies(
                        *self,
                        holder.segments@[out@[k] as int],
                    ),
                forall|i2: int|
                    0 <= i2 < i && spec_vacuum_qualifies(
                        *self,
                        #[trigger] holder.segments@[i2],
                    ) ==> (exists|k: int|
                        0 <= k < out@.len() && (#[trigger] out@[k]) as int == i2),
            decreases n - i,
        {
            let seg = &holder.segments[i];
            let live = seg.points_count();
            let dead = seg.deleted_count();
            if live >= self.min_vectors_number {
                // dead / (dead + live) > threshold/1000, in integers; the
                // threshold is clamped to a full share.
                let perm: u128 = if self.deleted_threshold_permille > 1000 {
                    1000
                } else {
                    self.deleted_threshold_permille as u128
                };
                proof {
                    assert((dead as int + live as int) * (perm as int)
                        < 0x1_0000_0000_0000_0000_0000_0000_0000_0000) by (nonlinear_arith)
                        requires
                            0 <= dead as int + live as int <= 0x2_0000_0000_0000_0000,
                            0 <= perm as int <= 1000,
                    ;
                }
                let lhs: u128 = dead as u128 * 1000;
                let rhs: u128 = (dead as u128 + live as u128) * perm;
                if lhs > rhs {
                    let ghost out0 = out@;
                    out.push(i);
                    proof {
                        assert forall|i2: int|
                            0 <= i2 < i + 1 && spec_vacuum_qualifies(
                                *self,
                                #[trigger] holder.segments@[i2],
                            ) implies (exists|k: int|
                            0 <= k < out@.len() && (#[trigger] out@[k]) as int == i2) by {
                            if i2 < i {
                                let w = choose|k: int|
                                    0 <= k < out0.len() && (#[trigger] out0[k]) as int == i2;
                                assert(out@[w] == out0[w]);
                            } else {
                                assert(out@[out@.len() - 1] == i);
                            }
                        }
                    }
                }
            }
            i = i + 1;
        }
        out
    }
}

} // verus!
