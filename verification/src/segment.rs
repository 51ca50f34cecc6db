//! The segment: an independent group of points with its own vector
//! storages, payload storage, payload index and id tracker. It owns
//! versioning (stale operations are skipped), the error latch, flushing and
//! value-level snapshots.

use vstd::prelude::*;
use crate::types::{
    PointIdType, PointOffsetType, SeqNumberType, VectorElementType, SegmentType, SegmentConfig,
    SegmentState, VectorDataConfig, Distance, Indexes, StorageType, spec_config_of,
    vector_names_unique, FIXED_POINT_ONE,
};
use crate::errors::{OperationError, OperationResult, SegmentFailedState};
use crate::id_tracker::SimpleIdTracker;
use crate::payload::{Payload, PayloadValue, Filter};
use crate::payload_storage::SimplePayloadStorage;
use crate::payload_index::{StructPayloadIndex, PayloadSchemaType, CardinalityEstimation};
use crate::vector_storage::{
    SimpleVectorStorage, bounded_vector, spec_normalize, copy_vector, isqrt_u128, score_vectors,
};
use crate::vector_index::VectorIndexEnum;
use crate::assoc::{assoc_get, assoc_keys_unique, assoc_find};

verus! {

/// The vectors of one point, keyed by vector name. The unnamed default
/// vector has the empty name.
pub struct NamedVectors {
    pub pairs: Vec<(String, Vec<VectorElementType>)>,
}

impl NamedVectors {
    pub open spec fn wf(&self) -> bool {
        assoc_keys_unique(self.pairs@)
    }

    pub open spec fn spec_get(&self, name: Seq<char>) -> Option<Vec<VectorElementType>> {
        assoc_get(self.pairs@, name)
    }

    pub fn new() -> (r: Self)
        ensures
            r.wf(),
            r.pairs@.len() == 0,
    {
        NamedVectors { pairs: Vec::new() }
    }
}

/// The single-vector input most collections use: one vector under the
/// default (empty) name.
pub fn only_default_vector(v: &Vec<VectorElementType>) -> (r: NamedVectors)
    ensures
        r.wf(),
        r.pairs@.len() == 1,
        r.pairs@[0].0@ == Seq::<char>::empty(),
        r.pairs@[0].1@ == v@,
{
    let mut pairs: Vec<(String, Vec<VectorElementType>)> = Vec::new();
    pairs.push((String::new(), copy_vector(v)));
    NamedVectors { pairs }
}

/// What preprocessing stores for a vector: cosine vectors are normalized to
/// the fixed-point unit norm, every other distance stores the vector as-is.
pub open spec fn spec_preprocess(d: Distance, v: Seq<VectorElementType>) -> Seq<int> {
    if d is Cosine {
        spec_normalize(v)
    } else {
        Seq::new(v.len(), |k: int| v[k] as int)
    }
}

/// Normalizes a cosine vector to the fixed-point unit norm; a zero vector
/// is kept unchanged.
#[verifier::loop_isolation(false)]
pub fn preprocess_vector(d: Distance, v: &Vec<VectorElementType>) -> (r: Vec<VectorElementType>)
    requires
        bounded_vector(v@),
    ensures
        r@.len() == v@.len(),
        forall|k: int| 0 <= k < v@.len() ==> (#[trigger] r@[k]) as int == spec_preprocess(d, v@)[k],
    {
    if !matches!(d, Distance::Cosine) {
        let r = copy_vector(v);
        return r;
    }
    let norm2: i128 = score_vectors(Distance::Dot, v, v);
    proof {
        crate::segment::lemma_dot_self_nonneg(v@);
    }
    let norm: u128 = isqrt_u128(norm2 as u128);
    if norm == 0 {
        let r = copy_vector(v);
        proof {
            assert(crate::vector_storage::spec_norm(v@) == 0);
        }
        return r;
    }
    let n = v.len();
    let mut r: Vec<VectorElementType> = Vec::new();
    let mut k: usize = 0;
    while k < n
        invariant
            0 <= k <= n,
            r@.len() == k,
            norm > 0,
            norm == crate::vector_storage::spec_norm(v@),
            forall|j: int|
                0 <= j < k ==> (#[trigger] r@[j]) as int == crate::vector_storage::spec_normalized_component(
                    v@[j] as int,
                    norm as int,
                ),
        decreases n - k,
    {
        let e = v[k];
        let neg = e < 0;
        let mag: u128 = if neg {
            (-(e as i128)) as u128
        } else {
            e as u128
        };
        let scaled: u128 = mag * (FIXED_POINT_ONE as u128);
        let q: u128 = scaled / norm;
        proof {
            assert(mag <= 1_000_000_000u128);
            assert(scaled <= 1_000_000_000_000u128);
            assert(q as int <= scaled as int) by (nonlinear_arith)
                requires
                    scaled as int >= 0,
                    norm as int >= 1,
                    q as int == (scaled as int) / (norm as int),
            ;
        }
        let out: i64 = if neg {
            -(q as i64)
        } else {
            q as i64
        };
        r.push(out);
        k = k + 1;
    }
    proof {
        assert forall|j: int| 0 <= j < n implies (#[trigger] r@[j]) as int == spec_preprocess(
            Distance::Cosine,
            v@,
        )[j] by {
            assert(crate::vector_storage::spec_norm(v@) == norm as int);
        }
    }
    r
}

/// The dot product of a vector with itself is non-negative.
pub proof fn lemma_dot_self_nonneg(v: Seq<VectorElementType>)
    ensures
        crate::vector_storage::spec_dot(v, v) >= 0,
    decreases v.len(),
{
    if v.len() > 0 {
        lemma_dot_self_nonneg(v.subrange(1, v.len() as int));
        assert(v[0] * v[0] >= 0) by (nonlinear_arith);
    }
}

/// Storage and index of one named vector.
pub struct VectorData {
    pub vector_storage: SimpleVectorStorage,
    pub vector_index: VectorIndexEnum,
}

/// An independent group of points: storages, indexes, id tracker, version
/// bookkeeping and the error latch.
pub struct Segment {
    /// Latest operation number applied to this segment; `None` while empty.
    pub version: Option<SeqNumberType>,
    /// Latest operation number known to be durable.
    pub persisted_version: Option<SeqNumberType>,
    pub id_tracker: SimpleIdTracker,
    pub vector_data: Vec<(String, VectorData)>,
    pub payload_storage: SimplePayloadStorage,
    pub payload_index: StructPayloadIndex,
    pub appendable_flag: bool,
    pub segment_type: SegmentType,
    pub segment_config: SegmentConfig,
    /// While set, operations newer than the failed one are rejected until
    /// the failed point operation is retried successfully.
    pub error_status: Option<SegmentFailedState>,
    /// The state file contents written by the last flush.
    pub persisted_state: Option<SegmentState>,
}

impl Segment {
    /// Structural well-formedness, tying the sub-stores together: one
    /// storage per configured vector name with the configured dimension,
    /// and every allocated offset addressable in every store.
    pub open spec fn wf(&self) -> bool {
        &&& self.segment_config.wf()
        &&& self.id_tracker.wf()
        &&& self.payload_storage.wf()
        &&& self.payload_index.wf()
        &&& self.vector_data@.len() == self.segment_config.vector_data@.len()
        &&& forall|i: int|
            0 <= i < self.vector_data@.len() ==> (#[trigger] self.vector_data@[i]).0@
                == self.segment_config.vector_data@[i].0@
        &&& forall|i: int|
            0 <= i < self.vector_data@.len() ==> (#[trigger] self.vector_data@[i]).1.vector_storage.wf()
                && self.vector_data@[i].1.vector_storage.dim
                == self.segment_config.vector_data@[i].1.size
                && self.vector_data@[i].1.vector_storage.distance
                == self.segment_config.vector_data@[i].1.distance
                && self.vector_data@[i].1.vector_storage.spec_count()
                == self.id_tracker.spec_internal_size()
        &&& self.payload_storage.spec_len() == self.id_tracker.spec_internal_size()
        &&& forall|k: int|
            0 <= k < self.id_tracker.spec_links().len() ==> self.id_tracker.spec_version_of(
                (#[trigger] self.id_tracker.spec_links()[k]).1,
            ) is Some
    }

    /// Current segment version: the highest applied operation number.
    pub open spec fn spec_version(&self) -> SeqNumberType {
        match self.version {
            Some(v) => v,
            None => 0,
        }
    }

    /// The recorded version of a point, through the id tracker.
    pub open spec fn spec_point_version(&self, point_id: PointIdType) -> Option<SeqNumberType> {
        match self.id_tracker.spec_internal_id(point_id) {
            Some(off) => self.id_tracker.spec_version_of(off),
            None => None,
        }
    }

    /// Whether the point exists (has a live link).
    pub open spec fn spec_has_point(&self, point_id: PointIdType) -> bool {
        self.id_tracker.spec_internal_id(point_id) is Some
    }

    pub fn version(&self) -> (r: SeqNumberType)
        ensures
            r == self.spec_version(),
    {
        match self.version {
            Some(v) => v,
            None => 0,
        }
    }

    pub fn point_version(&self, point_id: PointIdType) -> (r: Option<SeqNumberType>)
        ensures
            r == self.spec_point_version(point_id),
    {
        match self.id_tracker.internal_id(&point_id) {
            Some(off) => self.id_tracker.internal_version(off),
            None => None,
        }
    }

    pub fn has_point(&self, point_id: PointIdType) -> (r: bool)
        ensures
            r == self.spec_has_point(point_id),
    {
        self.id_tracker.internal_id(&point_id).is_some()
    }

    pub fn points_count(&self) -> (r: usize)
        ensures
            r == self.id_tracker.spec_points_count(),
    {
        self.id_tracker.points_count()
    }

    pub fn deleted_count(&self) -> (r: usize)
        ensures
            r == Seq::new(
                self.id_tracker.spec_internal_size(),
                |i: int| crate::id_tracker::ext_of(
                    self.id_tracker.spec_links(),
                    i as PointOffsetType,
                ) is None,
            ).filter(|b: bool| b).len(),
    {
        self.id_tracker.deleted_count()
    }

    pub fn segment_type(&self) -> (r: SegmentType)
        ensures
            r == self.segment_type,
    {
        self.segment_type
    }

    pub fn is_appendable(&self) -> (r: bool)
        ensures
            r == self.appendable_flag,
    {
        self.appendable_flag
    }

    /// The error latch, if set.
    pub fn check_error(&self) -> (r: &Option<SegmentFailedState>)
        ensures
            r == &self.error_status,
    {
        &self.error_status
    }

    /// The persistent state this segment would write to its state file.
    pub fn get_state(&self) -> (r: SegmentState)
        ensures
            r.version == self.version,
            r.config.vector_data@ == self.segment_config.vector_data@,
            r.config.index == self.segment_config.index,
            r.config.storage_type == self.segment_config.storage_type,
            r.config.payload_storage_type == self.segment_config.payload_storage_type,
    {
        SegmentState { version: self.version, config: duplicate_config(&self.segment_config) }
    }

    /// The dimension of a named vector, from the configuration.
    pub fn vector_dim(&self, vector_name: &String) -> (r: OperationResult<usize>)
        ensures
            match r {
                Ok(d) => spec_config_of(self.segment_config.vector_data@, vector_name@)
                    is Some && d == spec_config_of(
                    self.segment_config.vector_data@,
                    vector_name@,
                )->Some_0.size,
                Err(e) => spec_config_of(self.segment_config.vector_data@, vector_name@)
                    is None && e is ServiceError,
            },
    {
        match self.segment_config.config_of(vector_name) {
            Some(c) => Ok(c.size),
            None => Err(
                OperationError::ServiceError {
                    description: "vector name is not configured in this segment".to_owned(),
                },
            ),
        }
    }

    /// Gate shared by every mutation: while the error latch is set, any
    /// operation with a newer number is rejected until recovery.
    fn check_error_gate(&self, op_num: SeqNumberType) -> (r: OperationResult<()>)
        ensures
            match r {
                Ok(_) => !spec_error_gate_blocks(self.error_status, op_num),
                Err(e) => spec_error_gate_blocks(self.error_status, op_num) && e
                    is ServiceError,
            },
    {
        match &self.error_status {
            Some(failed) => {
                if failed.version < op_num {
                    Err(
                        OperationError::ServiceError {
                            description: "not recovered from previous error".to_owned(),
                        },
                    )
                } else {
                    Ok(())
                }
            },
            None => Ok(()),
        }
    }
}

/// The error latch blocks an operation when it is set and strictly older
/// than the operation.
pub open spec fn spec_error_gate_blocks(
    status: Option<SegmentFailedState>,
    op_num: SeqNumberType,
) -> bool {
    match status {
        Some(failed) => failed.version < op_num,
        None => false,
    }
}

/// Copy of a segment configuration that is provably equal field by field.
pub fn duplicate_config(c: &SegmentConfig) -> (r: SegmentConfig)
    ensures
        r.vector_data@ == c.vector_data@,
        r.index == c.index,
        r.storage_type == c.storage_type,
        r.payload_storage_type == c.payload_storage_type,
{
    let mut vector_data: Vec<(String, VectorDataConfig)> = Vec::new();
    let n = c.vector_data.len();
    let mut i: usize = 0;
    while i < n
        invariant
            0 <= i <= n,
            n == c.vector_data@.len(),
            vector_data@ =~= c.vector_data@.subrange(0, i as int),
        decreases n - i,
    {
        let name = c.vector_data[i].0.clone();
        let cfg = c.vector_data[i].1;
        vector_data.push((name, cfg));
        proof {
            assert(c.vector_data@[i as int] == (c.vector_data@[i as int].0, c.vector_data@[i as int].1));
            assert(vector_data@ =~= c.vector_data@.subrange(0, i + 1));
        }
        i = i + 1;
    }
    proof {
        assert(vector_data@ =~= c.vector_data@);
    }
    SegmentConfig {
        vector_data,
        index: c.index,
        storage_type: c.storage_type,
        payload_storage_type: c.payload_storage_type,
    }
}


/// `s.remove(i)` followed by `insert(i, x)` is `s.update(i, x)`.
pub proof fn lemma_remove_insert_update<A>(s: Seq<A>, i: int, x: A)
    requires
        0 <= i < s.len(),
    ensures
        s.remove(i).insert(i, x) =~= s.update(i, x),
{
    s.remove_ensures(i);
    s.remove(i).insert_ensures(i, x);
}

impl OperationError {
    /// Copy that is provably equal to the original.
    pub fn duplicate(&self) -> (r: Self)
        ensures
            r == *self,
    {
        match self {
            OperationError::WrongVector { expected_dim, received_dim } => {
                OperationError::WrongVector {
                    expected_dim: *expected_dim,
                    received_dim: *received_dim,
                }
            },
            OperationError::PointIdError { missed_point_id } => OperationError::PointIdError {
                missed_point_id: *missed_point_id,
            },
            OperationError::TypeInferenceError { field_name } => {
                OperationError::TypeInferenceError { field_name: field_name.clone() }
            },
            OperationError::ServiceError { description } => OperationError::ServiceError {
                description: description.clone(),
            },
            OperationError::Cancelled { description } => OperationError::Cancelled {
                description: description.clone(),
            },
        }
    }
}

/// The vectors of an upsert are acceptable for a configuration: one vector
/// per configured name, of the configured dimension, whose preprocessed
/// form stays in the fixed-point range.
pub open spec fn spec_vectors_valid(config: SegmentConfig, nv: NamedVectors) -> bool {
    &&& nv.pairs@.len() == config.vector_data@.len()
    &&& forall|i: int|
        0 <= i < config.vector_data@.len() ==> {
            let name = (#[trigger] config.vector_data@[i]).0@;
            let entry = assoc_get(nv.pairs@, name);
            &&& entry is Some
            &&& entry->Some_0@.len() == config.vector_data@[i].1.size
            &&& bounded_vector(entry->Some_0@)
            &&& bounded_int_vector(
                spec_preprocess(config.vector_data@[i].1.distance, entry->Some_0@),
            )
        }
}

/// Every configured vector name appears in the input.
pub open spec fn spec_names_present(config: SegmentConfig, nv: NamedVectors) -> bool {
    forall|i: int|
        0 <= i < config.vector_data@.len() ==> assoc_get(
            nv.pairs@,
            (#[trigger] config.vector_data@[i]).0@,
        ) is Some
}

/// Every supplied vector has raw components in the fixed-point range.
pub open spec fn spec_raw_bounded(config: SegmentConfig, nv: NamedVectors) -> bool {
    forall|i: int|
        0 <= i < config.vector_data@.len() ==> (match assoc_get(
            nv.pairs@,
            (#[trigger] config.vector_data@[i]).0@,
        ) {
            Some(v) => crate::vector_storage::bounded_vector(v@),
            None => true,
        })
}

/// Every supplied vector stays in the fixed-point range after
/// preprocessing.
pub open spec fn spec_normalized_bounded(config: SegmentConfig, nv: NamedVectors) -> bool {
    forall|i: int|
        0 <= i < config.vector_data@.len() ==> (match assoc_get(
            nv.pairs@,
            (#[trigger] config.vector_data@[i]).0@,
        ) {
            Some(v) => bounded_int_vector(
                spec_preprocess(config.vector_data@[i].1.distance, v@),
            ),
            None => true,
        })
}

/// Every supplied vector has the configured dimension.
pub open spec fn spec_dims_ok(config: SegmentConfig, nv: NamedVectors) -> bool {
    forall|i: int|
        0 <= i < config.vector_data@.len() ==> (match assoc_get(
            nv.pairs@,
            (#[trigger] config.vector_data@[i]).0@,
        ) {
            Some(v) => v@.len() == config.vector_data@[i].1.size,
            None => true,
        })
}

/// Every component of an integer sequence stays within the fixed-point
/// bound.
pub open spec fn bounded_int_vector(v: Seq<int>) -> bool {
    forall|i: int|
        0 <= i < v.len() ==> -(crate::types::VECTOR_ELEMENT_BOUND as int) <= #[trigger] v[i]
            <= crate::types::VECTOR_ELEMENT_BOUND as int
}

impl Segment {
    /// How the error latch reacts to an operation's outcome: an internal
    /// failure arms it; any other outcome for the latched point releases it.
    fn settle_error_status(
        &mut self,
        op_num: SeqNumberType,
        point_id: Option<PointIdType>,
        failed: Option<&OperationError>,
    )
        ensures
            final(self).error_status == spec_settled_error(
                old(self).error_status,
                op_num,
                point_id,
                match failed {
                    Some(e) => Some(*e),
                    None => None,
                },
            ),
            final(self).version == old(self).version,
            final(self).persisted_version == old(self).persisted_version,
            final(self).id_tracker == old(self).id_tracker,
            final(self).vector_data == old(self).vector_data,
            final(self).payload_storage == old(self).payload_storage,
            final(self).payload_index == old(self).payload_index,
            final(self).segment_config == old(self).segment_config,
            final(self).persisted_state == old(self).persisted_state,
            final(self).appendable_flag == old(self).appendable_flag,
            final(self).segment_type == old(self).segment_type,
    {
        match failed {
            Some(e) => {
                if matches!(e, OperationError::ServiceError { .. }) {
                    self.error_status = Some(
                        SegmentFailedState { version: op_num, point_id, error: e.duplicate() },
                    );
                    return ;
                }
            },
            None => {},
        }
        // Not an internal failure: release the latch when it points at the
        // same point (or when both the latch and the operation carry none).
        let clear = match (&self.error_status, &point_id) {
            (Some(st), Some(pid)) => {
                match &st.point_id {
                    Some(failed_pid) => *failed_pid == *pid,
                    None => false,
                }
            },
            (Some(st), None) => st.point_id.is_none(),
            _ => false,
        };
        if clear {
            self.error_status = None;
        }
    }
}

/// The recorded version of a point, looked up through a tracker.
pub open spec fn spec_tracker_point_version(
    tr: SimpleIdTracker,
    e: PointIdType,
) -> Option<SeqNumberType> {
    match tr.spec_internal_id(e) {
        Some(off) => tr.spec_version_of(off),
        None => None,
    }
}

/// When only one point's recorded version moved, every other point's
/// recorded version reads as before.
pub proof fn lemma_other_point_versions(
    tr_old: SimpleIdTracker,
    tr_new: SimpleIdTracker,
    point_id: PointIdType,
    off: PointOffsetType,
)
    requires
        tr_old.wf(),
        tr_old.spec_internal_id(point_id) == Some(off),
        tr_new.spec_links() == tr_old.spec_links(),
        forall|i2: PointOffsetType|
            i2 != off ==> #[trigger] tr_new.spec_version_of(i2) == tr_old.spec_version_of(i2),
    ensures
        forall|e2: PointIdType|
            e2 != point_id ==> #[trigger] spec_tracker_point_version(tr_new, e2)
                == spec_tracker_point_version(tr_old, e2),
{
    assert forall|e2: PointIdType| e2 != point_id implies #[trigger] spec_tracker_point_version(
        tr_new,
        e2,
    ) == spec_tracker_point_version(tr_old, e2) by {
        match tr_old.spec_internal_id(e2) {
            Some(off2) => {
                assert(tr_new.spec_internal_id(e2) == Some(off2));
                crate::id_tracker::lemma_link_of_contains(tr_old.spec_links(), e2);
                crate::id_tracker::lemma_contains_to_lookups(tr_old.spec_links(), e2, off2);
                crate::id_tracker::lemma_link_of_contains(tr_old.spec_links(), point_id);
                crate::id_tracker::lemma_contains_to_lookups(tr_old.spec_links(), point_id, off);
                assert(off2 != off) by {
                    if off2 == off {
                        assert(crate::id_tracker::ext_of(tr_old.spec_links(), off) == Some(e2));
                        assert(crate::id_tracker::ext_of(tr_old.spec_links(), off) == Some(
                            point_id,
                        ));
                    }
                }
            },
            None => {
                assert(tr_new.spec_internal_id(e2) is None);
            },
        }
    }
}

/// The error latch after an operation: armed by an internal failure,
/// released by any other outcome for the latched point, untouched
/// otherwise.
pub open spec fn spec_settled_error(
    status: Option<SegmentFailedState>,
    op_num: SeqNumberType,
    point_id: Option<PointIdType>,
    failed: Option<OperationError>,
) -> Option<SegmentFailedState> {
    if failed is Some && failed->Some_0 is ServiceError {
        Some(SegmentFailedState { version: op_num, point_id, error: failed->Some_0 })
    } else {
        match status {
            Some(st) => if st.point_id == point_id {
                None
            } else {
                status
            },
            None => None,
        }
    }
}


impl Segment {
    /// The stored vector of a named storage at an offset, as the
    /// specification sees it.
    pub open spec fn spec_stored_vector(&self, i: int, off: PointOffsetType) -> Option<
        Seq<VectorElementType>,
    > {
        self.vector_data@[i].1.vector_storage.spec_vector_of(off)
    }

    /// Creates or updates one point: every configured vector is validated
    /// (dimension, fixed-point range), preprocessed, and written; the
    /// point's version and the segment version are advanced. A stale
    /// operation is skipped; the error latch blocks newer operations.
    #[verifier::loop_isolation(false)]
    #[verifier::rlimit(60)]
    pub fn upsert_vector(
        &mut self,
        op_num: SeqNumberType,
        point_id: PointIdType,
        vectors: &NamedVectors,
    ) -> (r: OperationResult<bool>)
        requires
            old(self).wf(),
            vectors.wf(),
        ensures
            final(self).wf(),
            final(self).segment_config == old(self).segment_config,
            final(self).appendable_flag == old(self).appendable_flag,
            final(self).segment_type == old(self).segment_type,
            final(self).persisted_version == old(self).persisted_version,
            final(self).persisted_state == old(self).persisted_state,
            final(self).payload_index == old(self).payload_index,
            // The error latch rejects anything newer than the failure.
            spec_error_gate_blocks(old(self).error_status, op_num) ==> r is Err
                && *final(self) == *old(self) && r->Err_0 is ServiceError,
            // A vector set of the wrong shape never applies.
            vectors.pairs@.len() != old(self).segment_config.vector_data@.len() ==> r is Err,
            // A stale operation is skipped: nothing moves but the error
            // latch, which the benign outcome settles.
            (!spec_error_gate_blocks(old(self).error_status, op_num) && spec_stale(
                *old(self),
                point_id,
                op_num,
            ) && vectors.pairs@.len() == old(self).segment_config.vector_data@.len()) ==> r
                == Ok::<bool, OperationError>(false) && *final(self) == (Segment {
                error_status: spec_settled_error(
                    old(self).error_status,
                    op_num,
                    if old(self).spec_has_point(point_id) {
                        Some(point_id)
                    } else {
                        None
                    },
                    None,
                ),
                ..*old(self)
            }),
            // Otherwise the operation succeeds exactly for acceptable input.
            (!spec_error_gate_blocks(old(self).error_status, op_num) && !spec_stale(
                *old(self),
                point_id,
                op_num,
            ) && (old(self).spec_has_point(point_id) || old(self).id_tracker.spec_internal_size()
                < 0xffff_ffff)) ==> (r is Ok <==> spec_vectors_valid(
                old(self).segment_config,
                *vectors,
            )),
            // On failure nothing but the error latch moves.
            r is Err ==> final(self).id_tracker == old(self).id_tracker
                && final(self).vector_data == old(self).vector_data
                && final(self).payload_storage == old(self).payload_storage
                && final(self).version == old(self).version,
            // A dimension mismatch is reported as such, with the configured
            // and the received dimension of an offending vector.
            (!spec_error_gate_blocks(old(self).error_status, op_num) && !spec_stale(
                *old(self),
                point_id,
                op_num,
            ) && vectors.pairs@.len() == old(self).segment_config.vector_data@.len()
                && spec_names_present(old(self).segment_config, *vectors) && spec_raw_bounded(
                old(self).segment_config,
                *vectors,
            ) && spec_normalized_bounded(old(self).segment_config, *vectors) && !spec_dims_ok(
                old(self).segment_config,
                *vectors,
            )) ==> (r matches Err(OperationError::WrongVector { expected_dim, received_dim })
                && exists|i: int|
                0 <= i < old(self).segment_config.vector_data@.len() && assoc_get(
                    vectors.pairs@,
                    (#[trigger] old(self).segment_config.vector_data@[i]).0@,
                ) is Some && expected_dim == old(self).segment_config.vector_data@[i].1.size
                    && received_dim == assoc_get(
                    vectors.pairs@,
                    old(self).segment_config.vector_data@[i].0@,
                )->Some_0@.len() && expected_dim != received_dim),
            // The returned flag says whether the point already existed, and
            // a fresh point takes the next free internal offset.
            (r is Ok && !spec_stale(*old(self), point_id, op_num)) ==> (r->Ok_0 <==> old(
                self,
            ).spec_has_point(point_id)),
            (r is Ok && !spec_stale(*old(self), point_id, op_num) && !old(self).spec_has_point(
                point_id,
            )) ==> final(self).id_tracker.spec_internal_id(point_id) == Some(
                (old(self).id_tracker.spec_internal_size() as u32),
            ),
            // The error latch after the operation, for every path that went
            // past the entry checks. The latch is keyed as the recovery
            // sees the operation: by the point only where it already had an
            // offset.
            (r is Ok && !spec_stale(*old(self), point_id, op_num)) ==> final(self).error_status
                == spec_settled_error(
                old(self).error_status,
                op_num,
                if old(self).spec_has_point(point_id) {
                    Some(point_id)
                } else {
                    None
                },
                None,
            ),
            (r is Err && vectors.pairs@.len() != old(self).segment_config.vector_data@.len())
                ==> final(self).error_status == old(self).error_status,
            (r is Err && !spec_error_gate_blocks(old(self).error_status, op_num)
                && vectors.pairs@.len() == old(self).segment_config.vector_data@.len())
                ==> final(self).error_status == spec_settled_error(
                old(self).error_status,
                op_num,
                if old(self).spec_has_point(point_id) {
                    Some(point_id)
                } else {
                    None
                },
                Some(r->Err_0),
            ),
            // Other points' recorded versions read as before.
            (r is Ok && !spec_stale(*old(self), point_id, op_num)) ==> (forall|e2: PointIdType|
                e2 != point_id ==> #[trigger] final(self).spec_point_version(e2) == old(
                    self,
                ).spec_point_version(e2)),
            // On applied success the point is stored, versioned, and every
            // other point is untouched.
            (r is Ok && !spec_stale(*old(self), point_id, op_num)) ==> {
                let off = final(self).id_tracker.spec_internal_id(point_id)->Some_0;
                &&& final(self).spec_has_point(point_id)
                &&& final(self).spec_point_version(point_id) == Some(op_num)
                &&& final(self).version == Some(spec_max_u64(old(self).spec_version(), op_num))
                &&& forall|i: int|
                    0 <= i < final(self).segment_config.vector_data@.len()
                        ==> #[trigger] final(self).spec_stored_vector(i, off) == Some(
                        spec_as_i64(
                            spec_preprocess(
                                final(self).segment_config.vector_data@[i].1.distance,
                                assoc_get(
                                    vectors.pairs@,
                                    final(self).segment_config.vector_data@[i].0@,
                                )->Some_0@,
                            ),
                        ),
                    )
                &&& forall|e2: PointIdType|
                    e2 != point_id ==> #[trigger] final(self).id_tracker.spec_internal_id(e2)
                        == old(self).id_tracker.spec_internal_id(e2)
                &&& forall|i: int, off2: PointOffsetType|
                    0 <= i < final(self).vector_data@.len() && off2 != off
                        ==> #[trigger] final(self).spec_stored_vector(i, off2) == old(
                        self,
                    ).spec_stored_vector(i, off2)
                &&& forall|off2: PointOffsetType, key: Seq<char>|
                    final(self).payload_storage.spec_field_of(off2, key)
                        == old(self).payload_storage.spec_field_of(off2, key)
                &&& (old(self).spec_has_point(point_id) ==> off == old(
                    self,
                ).id_tracker.spec_internal_id(point_id)->Some_0)
            },
    {
        // Shape validation happens before any gate, as the entry checks do.
        if vectors.pairs.len() != self.segment_config.vector_data.len() {
            return Err(
                OperationError::ServiceError {
                    description: "vector names do not match the segment configuration".to_owned(),
                },
            );
        }
        match self.check_error_gate(op_num) {
            Ok(_) => {},
            Err(e) => {
                return Err(e);
            },
        }
        let stored_internal = self.id_tracker.internal_id(&point_id);
        // The recovery key: the point, where it already had an offset.
        let latch_point = if stored_internal.is_some() {
            Some(point_id)
        } else {
            None
        };
        match stored_internal {
            Some(off) => {
                match self.id_tracker.internal_version(off) {
                    Some(v) => {
                        if v > op_num {
                            self.settle_error_status(op_num, latch_point, None);
                            return Ok(false);
                        }
                    },
                    None => {
                        proof {
                            lemma_linked_point_version(*self, point_id);
                        }
                    },
                }
            },
            None => {
                // A point the segment does not hold: the segment version
                // decides whether the operation was already applied once.
                let seg_version = match self.version {
                    Some(v) => v,
                    None => 0,
                };
                if seg_version > op_num {
                    self.settle_error_status(op_num, latch_point, None);
                    return Ok(false);
                }
            },
        }

        // Validate and preprocess every configured vector before mutating,
        // so a rejected input leaves the stores untouched.
        let n = self.segment_config.vector_data.len();
        let mut processed: Vec<Vec<VectorElementType>> = Vec::new();
        let mut i: usize = 0;
        let mut failure: Option<OperationError> = None;
        while i < n && failure.is_none()
            invariant
                0 <= i <= n,
                n == self.segment_config.vector_data@.len(),
                *self == *old(self),
                failure is None ==> processed@.len() == i,
                failure is None ==> forall|j: int|
                    0 <= j < i ==> {
                        let name = (#[trigger] self.segment_config.vector_data@[j]).0@;
                        let entry = assoc_get(vectors.pairs@, name);
                        &&& entry is Some
                        &&& entry->Some_0@.len() == self.segment_config.vector_data@[j].1.size
                        &&& bounded_vector(entry->Some_0@)
                        &&& processed@[j]@.len() == entry->Some_0@.len()
                        &&& forall|k: int|
                            0 <= k < processed@[j]@.len()
                                ==> (#[trigger] processed@[j]@[k]) as int == spec_preprocess(
                                self.segment_config.vector_data@[j].1.distance,
                                entry->Some_0@,
                            )[k]
                        &&& bounded_vector(processed@[j]@)
                    },
                failure is Some ==> !spec_vectors_valid(self.segment_config, *vectors),
                (spec_names_present(self.segment_config, *vectors) && spec_raw_bounded(
                    self.segment_config,
                    *vectors,
                ) && spec_normalized_bounded(self.segment_config, *vectors)) ==> (match failure {
                    Some(e) => e matches OperationError::WrongVector {
                        expected_dim,
                        received_dim,
                    } && (exists|i2: int|
                        0 <= i2 < self.segment_config.vector_data@.len() && assoc_get(
                            vectors.pairs@,
                            (#[trigger] self.segment_config.vector_data@[i2]).0@,
                        ) is Some && expected_dim
                            == self.segment_config.vector_data@[i2].1.size && received_dim
                            == assoc_get(
                            vectors.pairs@,
                            self.segment_config.vector_data@[i2].0@,
                        )->Some_0@.len() && expected_dim != received_dim),
                    None => true,
                }),
            decreases n - i,
        {
            let name = &self.segment_config.vector_data[i].0;
            let cfg = self.segment_config.vector_data[i].1;
            match assoc_find(&vectors.pairs, name) {
                None => {
                    failure = Some(
                        OperationError::ServiceError {
                            description: "a configured vector name is missing from the input"
                                .to_owned(),
                        },
                    );
                    proof {
                        assert(!spec_names_present(self.segment_config, *vectors)) by {
                            assert(assoc_get(
                                vectors.pairs@,
                                self.segment_config.vector_data@[i as int].0@,
                            ) is None);
                        }
                    }
                },
                Some(vi) => {
                    let input = &vectors.pairs[vi].1;
                    if input.len() != cfg.size {
                        failure = Some(
                            OperationError::WrongVector {
                                expected_dim: cfg.size,
                                received_dim: input.len(),
                            },
                        );
                        proof {
                            assert(assoc_get(
                                vectors.pairs@,
                                self.segment_config.vector_data@[i as int].0@,
                            ) is Some);
                        }
                    } else {
                        // Check the raw components, then preprocess, then
                        // check the preprocessed components.
                        let mut ok = true;
                        let mut k: usize = 0;
                        let dim = input.len();
                        while k < dim
                            invariant
                                0 <= k <= dim,
                                dim == input@.len(),
                                ok == forall|k2: int|
                                    0 <= k2 < k ==> -crate::types::VECTOR_ELEMENT_BOUND <= (
                                    #[trigger] input@[k2]) <= crate::types::VECTOR_ELEMENT_BOUND,
                            decreases dim - k,
                        {
                            let x = input[k];
                            if x < -crate::types::VECTOR_ELEMENT_BOUND
                                || x > crate::types::VECTOR_ELEMENT_BOUND {
                                ok = false;
                            }
                            k = k + 1;
                        }
                        if !ok {
                            failure = Some(
                                OperationError::ServiceError {
                                    description: "vector component out of fixed-point range"
                                        .to_owned(),
                                },
                            );
                            proof {
                                assert(!spec_raw_bounded(self.segment_config, *vectors)) by {
                                    assert(assoc_get(
                                        vectors.pairs@,
                                        self.segment_config.vector_data@[i as int].0@,
                                    ) == Some(vectors.pairs@[vi as int].1));
                                    assert(!bounded_vector(vectors.pairs@[vi as int].1@));
                                }
                            }
                        } else {
                            let prep = preprocess_vector(cfg.distance, input);
                            let mut ok2 = true;
                            let mut k2: usize = 0;
                            let dim2 = prep.len();
                            while k2 < dim2
                                invariant
                                    0 <= k2 <= dim2,
                                    dim2 == prep@.len(),
                                    ok2 == forall|k3: int|
                                        0 <= k3 < k2 ==> -crate::types::VECTOR_ELEMENT_BOUND <= (
                                        #[trigger] prep@[k3])
                                            <= crate::types::VECTOR_ELEMENT_BOUND,
                                decreases dim2 - k2,
                            {
                                let x = prep[k2];
                                if x < -crate::types::VECTOR_ELEMENT_BOUND
                                    || x > crate::types::VECTOR_ELEMENT_BOUND {
                                    ok2 = false;
                                }
                                k2 = k2 + 1;
                            }
                            if !ok2 {
                                failure = Some(
                                    OperationError::ServiceError {
                                        description:
                                            "normalized component out of fixed-point range"
                                            .to_owned(),
                                    },
                                );
                                proof {
                                    let name0 = self.segment_config.vector_data@[i as int].0@;
                                    let entry = assoc_get(vectors.pairs@, name0);
                                    let pp = spec_preprocess(cfg.distance, entry->Some_0@);
                                    let w = choose|k3: int|
                                        0 <= k3 < prep@.len() && !(
                                        -crate::types::VECTOR_ELEMENT_BOUND <= (
                                        #[trigger] prep@[k3])
                                            <= crate::types::VECTOR_ELEMENT_BOUND);
                                    assert(pp[w] == prep@[w] as int);
                                    assert(!bounded_int_vector(pp));
                                    assert(!spec_normalized_bounded(
                                        self.segment_config,
                                        *vectors,
                                    )) by {
                                        assert(assoc_get(
                                            vectors.pairs@,
                                            self.segment_config.vector_data@[i as int].0@,
                                        ) == Some(vectors.pairs@[vi as int].1));
                                    }
                                }
                            } else {
                                processed.push(prep);
                            }
                        }
                    }
                }
            }
            i = i + 1;
        }
        match failure {
            Some(e) => {
                let dup = e.duplicate();
                self.settle_error_status(op_num, latch_point, Some(&e));
                return Err(dup);
            },
            None => {},
        }
        proof {
            assert forall|j: int| 0 <= j < self.segment_config.vector_data@.len() implies ({
                let name = (#[trigger] self.segment_config.vector_data@[j]).0@;
                let entry = assoc_get(vectors.pairs@, name);
                &&& entry is Some
                &&& entry->Some_0@.len() == self.segment_config.vector_data@[j].1.size
                &&& bounded_vector(entry->Some_0@)
                &&& bounded_int_vector(
                    spec_preprocess(self.segment_config.vector_data@[j].1.distance, entry->Some_0@),
                )
            }) by {
                let name = self.segment_config.vector_data@[j].0@;
                let entry = assoc_get(vectors.pairs@, name);
                let pp = spec_preprocess(
                    self.segment_config.vector_data@[j].1.distance,
                    entry->Some_0@,
                );
                assert(processed@[j]@.len() == entry->Some_0@.len());
                assert forall|k: int|
                    0 <= k < pp.len() implies -(crate::types::VECTOR_ELEMENT_BOUND as int) <= (
                    #[trigger] pp[k]) <= crate::types::VECTOR_ELEMENT_BOUND as int by {
                    assert(processed@[j]@[k] as int == pp[k]);
                    assert(-crate::types::VECTOR_ELEMENT_BOUND <= processed@[j]@[k]
                        <= crate::types::VECTOR_ELEMENT_BOUND);
                }
            }
            assert(spec_vectors_valid(self.segment_config, *vectors));
        }

        // Apply: write every vector at the point's offset, then record the
        // link and versions.
        let off: PointOffsetType = match stored_internal {
            Some(off) => off,
            None => {
                let size = self.id_tracker.internal_size();
                if size >= 0xffff_ffff_usize {
                    let e = OperationError::ServiceError {
                        description: "segment is full: no free internal offset".to_owned(),
                    };
                    let dup = e.duplicate();
                    self.settle_error_status(op_num, latch_point, Some(&e));
                    return Err(dup);
                }
                size as PointOffsetType
            },
        };
        proof {
            match stored_internal {
                Some(off0) => {
                    crate::id_tracker::lemma_link_of_contains(
                        self.id_tracker.spec_links(),
                        point_id,
                    );
                    let w = choose|w: int|
                        0 <= w < self.id_tracker.spec_links().len()
                            && self.id_tracker.spec_links()[w] == (point_id, off0);
                    assert((self.id_tracker.spec_links()[w]).1
                        < self.id_tracker.spec_internal_size());
                    crate::id_tracker::lemma_contains_to_lookups(
                        self.id_tracker.spec_links(),
                        point_id,
                        off0,
                    );
                },
                None => {
                    crate::id_tracker::lemma_ext_of_contains(
                        self.id_tracker.spec_links(),
                        off as PointOffsetType,
                    );
                    if self.id_tracker.spec_external_id(off) is Some {
                        let e0 = self.id_tracker.spec_external_id(off)->Some_0;
                        let w = choose|w: int|
                            0 <= w < self.id_tracker.spec_links().len()
                                && self.id_tracker.spec_links()[w] == (e0, off);
                        assert((self.id_tracker.spec_links()[w]).1
                            < self.id_tracker.spec_internal_size());
                    }
                },
            }
        }
        let ghost self_before = *self;
        let mut i2: usize = 0;
        while i2 < n
            invariant
                0 <= i2 <= n,
                n == self.segment_config.vector_data@.len(),
                *self == (Segment { vector_data: self.vector_data, ..self_before }),
                self.vector_data@.len() == n,
                forall|j: int|
                    i2 <= j < n ==> #[trigger] self.vector_data@[j] == self_before.vector_data@[j],
                forall|j: int|
                    0 <= j < i2 ==> (#[trigger] self.vector_data@[j]).0
                        == self_before.vector_data@[j].0
                        && self.vector_data@[j].1.vector_index
                        == self_before.vector_data@[j].1.vector_index
                        && self.vector_data@[j].1.vector_storage.wf()
                        && self.vector_data@[j].1.vector_storage.dim
                        == self_before.vector_data@[j].1.vector_storage.dim
                        && self.vector_data@[j].1.vector_storage.distance
                        == self_before.vector_data@[j].1.vector_storage.distance
                        && self.vector_data@[j].1.vector_storage.spec_count() as int == (
                        if off < self_before.vector_data@[j].1.vector_storage.spec_count() {
                            self_before.vector_data@[j].1.vector_storage.spec_count() as int
                        } else {
                            self_before.vector_data@[j].1.vector_storage.spec_count() as int + 1
                        })
                        && self.vector_data@[j].1.vector_storage.spec_vector_of(off) == Some(
                        processed@[j]@)
                        && (forall|off2: PointOffsetType|
                            off2 != off
                                ==> #[trigger] self.vector_data@[j].1.vector_storage.spec_vector_of(
                                off2,
                            ) == self_before.vector_data@[j].1.vector_storage.spec_vector_of(
                                off2,
                            )),
            decreases n - i2,
        {
            let ghost cur0 = self.vector_data@;
            let mut pair = self.vector_data.remove(i2);
            let res = pair.1.vector_storage.insert_vector(off, &processed[i2]);
            self.vector_data.insert(i2, pair);
            proof {
                lemma_remove_insert_update(cur0, i2 as int, self.vector_data@[i2 as int]);
                assert(self.vector_data@ =~= cur0.update(i2 as int, self.vector_data@[i2 as int]));
            }
            match res {
                Ok(_) => {},
                Err(_) => {
                    proof {
                        assert(false);
                    }
                },
            }
            i2 = i2 + 1;
        }
        let existed = stored_internal.is_some();
        let ghost tr0 = self.id_tracker;
        match self.id_tracker.set_link(point_id, off) {
            Ok(_) => {},
            Err(_) => {},
        }
        let ghost tr_mid = self.id_tracker;
        self.payload_storage.reserve_up_to(off);
        match self.id_tracker.set_internal_version(off, op_num) {
            Ok(_) => {},
            Err(_) => {
                proof {
                    assert(false);
                }
            },
        }
        let ghost tr_fin = self.id_tracker;
        let new_version = match self.version {
            Some(v) => if v >= op_num {
                v
            } else {
                op_num
            },
            None => op_num,
        };
        self.version = Some(new_version);
        self.settle_error_status(op_num, latch_point, None);
        proof {
            assert forall|j: int| 0 <= j < self.segment_config.vector_data@.len()
                implies #[trigger] self.vector_data@[j].1.vector_storage.spec_vector_of(off)
                == Some(
                spec_as_i64(
                    spec_preprocess(
                        self.segment_config.vector_data@[j].1.distance,
                        assoc_get(
                            vectors.pairs@,
                            self.segment_config.vector_data@[j].0@,
                        )->Some_0@,
                    ),
                ),
            ) by {
                let pp = spec_preprocess(
                    self.segment_config.vector_data@[j].1.distance,
                    assoc_get(vectors.pairs@, self.segment_config.vector_data@[j].0@)->Some_0@,
                );
                assert(self.vector_data@[j].1.vector_storage.spec_vector_of(off) == Some(
                    processed@[j]@,
                ));
                assert(processed@[j]@ =~= spec_as_i64(pp)) by {
                    assert forall|k: int| 0 <= k < pp.len() implies processed@[j]@[k] == (
                    #[trigger] spec_as_i64(pp)[k]) by {
                        assert(processed@[j]@[k] as int == pp[k]);
                    }
                }
            }
            assert(final(self).wf()) by {
                assert(forall|k: int|
                    0 <= k < self.id_tracker.spec_links().len()
                        ==> self.id_tracker.spec_version_of(
                        (#[trigger] self.id_tracker.spec_links()[k]).1,
                    ) is Some) by {
                    assert(self.id_tracker == tr_fin);
                    assert(tr_fin.spec_links() == tr_mid.spec_links());
                    assert(tr0 == self_before.id_tracker);
                    assert forall|k: int|
                        0 <= k < self.id_tracker.spec_links().len() implies self.id_tracker.spec_version_of(
                        (#[trigger] self.id_tracker.spec_links()[k]).1,
                    ) is Some by {
                        let l = tr_mid.spec_links()[k];
                        crate::id_tracker::lemma_index_contains(tr_mid.spec_links(), k);
                        crate::id_tracker::lemma_contains_to_lookups(tr_mid.spec_links(), l.0, l.1);
                        if l.0 == point_id {
                            assert(tr_mid.spec_internal_id(point_id) == Some(off));
                            assert(l.1 == off);
                            assert(tr_fin.spec_version_of(off) is Some);
                        } else {
                            assert(tr_mid.spec_internal_id(l.0) == tr0.spec_internal_id(l.0));
                            assert(tr0.spec_internal_id(l.0) == Some(l.1));
                            crate::id_tracker::lemma_link_of_contains(tr0.spec_links(), l.0);
                            let w = choose|w: int|
                                0 <= w < tr0.spec_links().len() && tr0.spec_links()[w] == (
                                l.0,
                                l.1,
                                );
                            assert(tr0.spec_version_of((tr0.spec_links()[w]).1) is Some);
                            assert(l.1 != off) by {
                                if l.1 == off {
                                    assert(tr_mid.spec_external_id(off) == Some(point_id));
                                }
                            }
                            assert(tr_mid.spec_version_of(l.1) == tr0.spec_version_of(l.1)) by {
                                if l.1 < tr0.spec_internal_size() {
                                } else {
                                    assert(tr0.spec_version_of(l.1) is None);
                                    assert((tr0.spec_links()[w]).1 < tr0.spec_internal_size());
                                }
                            }
                            assert(tr_fin.spec_version_of(l.1) == tr_mid.spec_version_of(l.1));
                        }
                        assert(self.id_tracker.spec_version_of(l.1) == tr_fin.spec_version_of(
                            l.1,
                        ));
                        assert(self.id_tracker.spec_links()[k] == l);
                    }
                }
            }
        }
        proof {
            assert forall|e2: PointIdType| e2 != point_id implies #[trigger] self.id_tracker.spec_internal_id(
                e2,
            ) == self_before.id_tracker.spec_internal_id(e2) by {
                assert(tr_mid.spec_internal_id(e2) == tr0.spec_internal_id(e2));
                assert(self.id_tracker.spec_links() == tr_mid.spec_links());
            }
            assert forall|e2: PointIdType| e2 != point_id
                implies #[trigger] self.spec_point_version(e2) == old(self).spec_point_version(
                e2,
            ) by {
                assert(self.id_tracker.spec_internal_id(e2) == tr0.spec_internal_id(e2));
                match tr0.spec_internal_id(e2) {
                    Some(off2) => {
                        crate::id_tracker::lemma_link_of_contains(tr0.spec_links(), e2);
                        crate::id_tracker::lemma_contains_to_lookups(tr0.spec_links(), e2, off2);
                        assert(off2 < tr0.spec_internal_size());
                        assert(off2 != off) by {
                            if off2 == off {
                                assert(tr_mid.spec_internal_id(e2) == Some(off));
                                crate::id_tracker::lemma_link_of_contains(
                                    tr_mid.spec_links(),
                                    e2,
                                );
                                crate::id_tracker::lemma_contains_to_lookups(
                                    tr_mid.spec_links(),
                                    e2,
                                    off,
                                );
                                assert(tr_mid.spec_external_id(off) == Some(e2));
                                assert(tr_mid.spec_external_id(off) == Some(point_id));
                            }
                        }
                        assert(tr_mid.spec_version_of(off2) == tr0.spec_version_of(off2));
                        assert(self.id_tracker.spec_version_of(off2) == tr_mid.spec_version_of(
                            off2,
                        ));
                    },
                    None => {},
                }
            }
        }
        Ok(existed)
    }
}

/// The larger of two operation numbers.
pub open spec fn spec_max_u64(a: SeqNumberType, b: SeqNumberType) -> SeqNumberType {
    if a >= b {
        a
    } else {
        b
    }
}

/// An integer sequence reinterpreted as fixed-point components.
pub open spec fn spec_as_i64(v: Seq<int>) -> Seq<VectorElementType> {
    Seq::new(v.len(), |k: int| v[k] as i64)
}

/// The operation is stale for this point: the stored point version is
/// newer than the operation.
pub open spec fn spec_stale(seg: Segment, point_id: PointIdType, op_num: SeqNumberType) -> bool {
    match seg.spec_point_version(point_id) {
        Some(v) => v > op_num,
        // A point the segment does not hold falls back to the segment
        // version: an operation older than the segment was already applied
        // once and is skipped on replay.
        None => seg.spec_version() > op_num,
    }
}

/// A linked point of a well-formed segment always carries a recorded
/// version.
pub proof fn lemma_linked_point_version(seg: Segment, point_id: PointIdType)
    requires
        seg.wf(),
        seg.id_tracker.spec_internal_id(point_id) is Some,
    ensures
        seg.spec_point_version(point_id) is Some,
{
    let off = seg.id_tracker.spec_internal_id(point_id)->Some_0;
    crate::id_tracker::lemma_link_of_contains(seg.id_tracker.spec_links(), point_id);
    let w = choose|w: int|
        0 <= w < seg.id_tracker.spec_links().len() && seg.id_tracker.spec_links()[w] == (
        point_id,
        off,
        );
    assert(seg.id_tracker.spec_version_of((seg.id_tracker.spec_links()[w]).1) is Some);
}


impl Segment {
    /// Deletes one point: its payload is dropped and its link removed; the
    /// tombstone keeps the operation number. Deleting an unknown point is a
    /// no-op reporting `false`.
    pub fn delete_point(&mut self, op_num: SeqNumberType, point_id: PointIdType) -> (r:
        OperationResult<bool>)
        requires
            old(self).wf(),
        ensures
            final(self).wf(),
            final(self).segment_config == old(self).segment_config,
            final(self).vector_data == old(self).vector_data,
            final(self).payload_index == old(self).payload_index,
            final(self).persisted_version == old(self).persisted_version,
            final(self).persisted_state == old(self).persisted_state,
            !old(self).spec_has_point(point_id) ==> r == Ok::<bool, OperationError>(false)
                && *final(self) == *old(self),
            (old(self).spec_has_point(point_id) && spec_error_gate_blocks(
                old(self).error_status,
                op_num,
            )) ==> r is Err && *final(self) == *old(self) && r->Err_0 is ServiceError,
            (old(self).spec_has_point(point_id) && !spec_error_gate_blocks(
                old(self).error_status,
                op_num,
            ) && spec_stale(*old(self), point_id, op_num)) ==> r == Ok::<bool, OperationError>(
                false,
            ) && *final(self) == (Segment {
                error_status: spec_settled_error(
                    old(self).error_status,
                    op_num,
                    Some(point_id),
                    None,
                ),
                ..*old(self)
            }),
            (old(self).spec_has_point(point_id) && !spec_error_gate_blocks(
                old(self).error_status,
                op_num,
            ) && !spec_stale(*old(self), point_id, op_num)) ==> ({
                &&& r == Ok::<bool, OperationError>(true)
                &&& !final(self).spec_has_point(point_id)
                &&& final(self).version == Some(spec_max_u64(old(self).spec_version(), op_num))
                &&& forall|e2: PointIdType|
                    e2 != point_id ==> #[trigger] final(self).id_tracker.spec_internal_id(e2)
                        == old(self).id_tracker.spec_internal_id(e2)
                &&& forall|off2: PointOffsetType, key: Seq<char>|
                    off2 != old(self).id_tracker.spec_internal_id(point_id)->Some_0
                        ==> #[trigger] final(self).payload_storage.spec_field_of(off2, key)
                        == old(self).payload_storage.spec_field_of(off2, key)
                &&& forall|e2: PointIdType|
                    e2 != point_id ==> #[trigger] final(self).spec_point_version(e2) == old(
                        self,
                    ).spec_point_version(e2)
                &&& final(self).error_status == spec_settled_error(
                    old(self).error_status,
                    op_num,
                    Some(point_id),
                    None,
                )
            }),
    {
        let internal = self.id_tracker.internal_id(&point_id);
        match internal {
            None => Ok(false),
            Some(off) => {
                match self.check_error_gate(op_num) {
                    Ok(_) => {},
                    Err(e) => {
                        return Err(e);
                    },
                }
                match self.id_tracker.internal_version(off) {
                    Some(v) => {
                        if v > op_num {
                            self.settle_error_status(op_num, Some(point_id), None);
                            return Ok(false);
                        }
                    },
                    None => {
                        proof {
                            lemma_linked_point_version(*self, point_id);
                        }
                    },
                }
                proof {
                    crate::id_tracker::lemma_link_of_contains(
                        self.id_tracker.spec_links(),
                        point_id,
                    );
                    let w = choose|w: int|
                        0 <= w < self.id_tracker.spec_links().len()
                            && self.id_tracker.spec_links()[w] == (point_id, off);
                    assert((self.id_tracker.spec_links()[w]).1
                        < self.id_tracker.spec_internal_size());
                }
                let ghost tr0 = self.id_tracker;
                self.payload_storage.drop_payload(off);
                match self.id_tracker.drop(point_id) {
                    Ok(_) => {},
                    Err(_) => {
                        proof {
                            assert(false);
                        }
                    },
                }
                let ghost tr_mid = self.id_tracker;
                match self.id_tracker.set_internal_version(off, op_num) {
                    Ok(_) => {},
                    Err(_) => {
                        proof {
                            assert(false);
                        }
                    },
                }
                let ghost tr_fin = self.id_tracker;
                let new_version = match self.version {
                    Some(v) => if v >= op_num {
                        v
                    } else {
                        op_num
                    },
                    None => op_num,
                };
                self.version = Some(new_version);
                self.settle_error_status(op_num, Some(point_id), None);
                proof {
                    assert(final(self).wf()) by {
                        assert forall|k: int|
                            0 <= k < self.id_tracker.spec_links().len() implies self.id_tracker.spec_version_of(
                            (#[trigger] self.id_tracker.spec_links()[k]).1,
                        ) is Some by {
                            let l = tr_mid.spec_links()[k];
                            crate::id_tracker::lemma_index_contains(tr_mid.spec_links(), k);
                            crate::id_tracker::lemma_contains_to_lookups(
                                tr_mid.spec_links(),
                                l.0,
                                l.1,
                            );
                            assert(l.0 != point_id);
                            assert(tr_mid.spec_internal_id(l.0) == tr0.spec_internal_id(l.0));
                            crate::id_tracker::lemma_link_of_contains(tr0.spec_links(), l.0);
                            let w = choose|w: int|
                                0 <= w < tr0.spec_links().len() && tr0.spec_links()[w] == (
                                l.0,
                                l.1,
                                );
                            assert(tr0.spec_version_of((tr0.spec_links()[w]).1) is Some);
                            assert(tr_fin.spec_version_of(l.1) is Some) by {
                                if l.1 != off {
                                    assert(tr_fin.spec_version_of(l.1) == tr_mid.spec_version_of(
                                        l.1,
                                    ));
                                }
                            }
                            assert(self.id_tracker.spec_links()[k] == l);
                        }
                    }
                    assert forall|e2: PointIdType| e2 != point_id
                        implies #[trigger] self.id_tracker.spec_internal_id(e2)
                        == tr0.spec_internal_id(e2) by {
                        assert(tr_mid.spec_internal_id(e2) == tr0.spec_internal_id(e2));
                        assert(self.id_tracker.spec_links() == tr_mid.spec_links());
                    }
                    assert forall|e2: PointIdType| e2 != point_id
                        implies #[trigger] self.spec_point_version(e2) == old(
                        self,
                    ).spec_point_version(e2) by {
                        match tr0.spec_internal_id(e2) {
                            Some(off2) => {
                                crate::id_tracker::lemma_link_of_contains(tr0.spec_links(), e2);
                                crate::id_tracker::lemma_contains_to_lookups(
                                    tr0.spec_links(),
                                    e2,
                                    off2,
                                );
                                crate::id_tracker::lemma_link_of_contains(
                                    tr0.spec_links(),
                                    point_id,
                                );
                                crate::id_tracker::lemma_contains_to_lookups(
                                    tr0.spec_links(),
                                    point_id,
                                    off,
                                );
                                assert(off2 != off) by {
                                    if off2 == off {
                                        assert(crate::id_tracker::ext_of(tr0.spec_links(), off)
                                            == Some(e2));
                                        assert(crate::id_tracker::ext_of(tr0.spec_links(), off)
                                            == Some(point_id));
                                    }
                                }
                                assert(self.id_tracker.spec_version_of(off2)
                                    == tr0.spec_version_of(off2));
                            },
                            None => {},
                        }
                    }
                }
                Ok(true)
            },
        }
    }

    /// Writes payload fields of one point, merging with what is stored.
    pub fn set_payload(
        &mut self,
        op_num: SeqNumberType,
        point_id: PointIdType,
        payload: &Payload,
    ) -> (r: OperationResult<bool>)
        requires
            old(self).wf(),
            payload.wf(),
        ensures
            final(self).wf(),
            final(self).segment_config == old(self).segment_config,
            final(self).vector_data == old(self).vector_data,
            final(self).id_tracker.spec_links() == old(self).id_tracker.spec_links(),
            final(self).payload_index == old(self).payload_index,
            spec_error_gate_blocks(old(self).error_status, op_num) ==> r is Err && *final(self)
                == *old(self) && r->Err_0 is ServiceError,
            (!spec_error_gate_blocks(old(self).error_status, op_num) && old(
                self,
            ).spec_has_point(point_id) && spec_stale(*old(self), point_id, op_num)) ==> r
                == Ok::<bool, OperationError>(false) && *final(self) == (Segment {
                error_status: spec_settled_error(
                    old(self).error_status,
                    op_num,
                    Some(point_id),
                    None,
                ),
                ..*old(self)
            }),
            (!spec_error_gate_blocks(old(self).error_status, op_num) && !spec_stale(
                *old(self),
                point_id,
                op_num,
            )) ==> ((r is Ok && r->Ok_0) <==> old(self).spec_has_point(point_id)),
            r is Err ==> final(self).version == old(self).version
                && final(self).payload_storage == old(self).payload_storage,
            (r is Ok && r->Ok_0) ==> final(self).error_status == spec_settled_error(
                old(self).error_status,
                op_num,
                Some(point_id),
                None,
            ),
            (!spec_error_gate_blocks(old(self).error_status, op_num) && !old(
                self,
            ).spec_has_point(point_id)) ==> final(self).error_status
                == spec_settled_error(
                old(self).error_status,
                op_num,
                Some(point_id),
                Some(r->Err_0),
            ),
            (r is Ok && r->Ok_0) ==> (forall|e2: PointIdType|
                e2 != point_id ==> #[trigger] final(self).spec_point_version(e2) == old(
                    self,
                ).spec_point_version(e2)),
            (!spec_error_gate_blocks(old(self).error_status, op_num) && !old(
                self,
            ).spec_has_point(point_id)) ==> (r matches Err(
                OperationError::PointIdError { missed_point_id },
            ) && missed_point_id == point_id),
            (r is Ok && r->Ok_0) ==> ({
                let off = old(self).id_tracker.spec_internal_id(point_id)->Some_0;
                &&& final(self).version == Some(spec_max_u64(old(self).spec_version(), op_num))
                &&& final(self).spec_point_version(point_id) == Some(op_num)
                &&& forall|key: Seq<char>|
                    #[trigger] final(self).payload_storage.spec_field_of(off, key) == (
                    if payload.spec_values(key) is Some {
                        payload.spec_values(key)
                    } else {
                        old(self).payload_storage.spec_field_of(off, key)
                    })
                &&& forall|off2: PointOffsetType, key: Seq<char>|
                    off2 != off ==> #[trigger] final(self).payload_storage.spec_field_of(
                        off2,
                        key,
                    ) == old(self).payload_storage.spec_field_of(off2, key)
            }),
    {
        match self.check_error_gate(op_num) {
            Ok(_) => {},
            Err(e) => {
                return Err(e);
            },
        }
        let internal = self.id_tracker.internal_id(&point_id);
        match internal {
            Some(off) => {
                match self.id_tracker.internal_version(off) {
                    Some(v) => {
                        if v > op_num {
                            self.settle_error_status(op_num, Some(point_id), None);
                            return Ok(false);
                        }
                    },
                    None => {
                        proof {
                            lemma_linked_point_version(*self, point_id);
                        }
                    },
                }
                proof {
                    crate::id_tracker::lemma_link_of_contains(
                        self.id_tracker.spec_links(),
                        point_id,
                    );
                    let w = choose|w: int|
                        0 <= w < self.id_tracker.spec_links().len()
                            && self.id_tracker.spec_links()[w] == (point_id, off);
                    assert((self.id_tracker.spec_links()[w]).1
                        < self.id_tracker.spec_internal_size());
                }
                self.payload_storage.assign(off, payload);
                match self.id_tracker.set_internal_version(off, op_num) {
                    Ok(_) => {},
                    Err(_) => {
                        proof {
                            assert(false);
                        }
                    },
                }
                let new_version = match self.version {
                    Some(v) => if v >= op_num {
                        v
                    } else {
                        op_num
                    },
                    None => op_num,
                };
                self.version = Some(new_version);
                self.settle_error_status(op_num, Some(point_id), None);
                proof {
                    lemma_wf_after_version_touch(*old(self), *self, point_id, off);
                    lemma_other_point_versions(
                        old(self).id_tracker,
                        self.id_tracker,
                        point_id,
                        off,
                    );
                    assert forall|e2: PointIdType| e2 != point_id
                        implies #[trigger] self.spec_point_version(e2) == old(
                        self,
                    ).spec_point_version(e2) by {
                        assert(spec_tracker_point_version(self.id_tracker, e2)
                            == spec_tracker_point_version(old(self).id_tracker, e2));
                    }
                }
                Ok(true)
            },
            None => {
                let e = OperationError::PointIdError { missed_point_id: point_id };
                let dup = e.duplicate();
                self.settle_error_status(op_num, Some(point_id), Some(&e));
                Err(dup)
            },
        }
    }
}

/// Well-formedness is kept when only a live point's version was advanced
/// and stores were only grown or edited in place.
pub proof fn lemma_wf_after_version_touch(
    s_old: Segment,
    s_new: Segment,
    point_id: PointIdType,
    off: PointOffsetType,
)
    requires
        s_old.wf(),
        s_new.segment_config == s_old.segment_config,
        s_new.vector_data == s_old.vector_data,
        s_new.payload_index == s_old.payload_index,
        s_new.id_tracker.wf(),
        s_new.id_tracker.spec_links() == s_old.id_tracker.spec_links(),
        s_new.id_tracker.spec_internal_size() == s_old.id_tracker.spec_internal_size(),
        forall|i2: PointOffsetType|
            i2 != off ==> #[trigger] s_new.id_tracker.spec_version_of(i2)
                == s_old.id_tracker.spec_version_of(i2),
        s_new.id_tracker.spec_version_of(off) is Some,
        s_new.payload_storage.wf(),
        s_new.payload_storage.spec_len() == s_old.payload_storage.spec_len(),
    ensures
        s_new.wf(),
{
    assert forall|k: int|
        0 <= k < s_new.id_tracker.spec_links().len() implies s_new.id_tracker.spec_version_of(
        (#[trigger] s_new.id_tracker.spec_links()[k]).1,
    ) is Some by {
        let l = s_new.id_tracker.spec_links()[k];
        assert(s_old.id_tracker.spec_version_of((s_old.id_tracker.spec_links()[k]).1) is Some);
        if l.1 != off {
        }
    }
}


impl Segment {
    /// Replaces the whole payload of one point.
    pub fn set_full_payload(
        &mut self,
        op_num: SeqNumberType,
        point_id: PointIdType,
        full_payload: &Payload,
    ) -> (r: OperationResult<bool>)
        requires
            old(self).wf(),
            full_payload.wf(),
        ensures
            final(self).wf(),
            final(self).segment_config == old(self).segment_config,
            final(self).vector_data == old(self).vector_data,
            final(self).id_tracker.spec_links() == old(self).id_tracker.spec_links(),
            final(self).payload_index == old(self).payload_index,
            spec_error_gate_blocks(old(self).error_status, op_num) ==> r is Err && *final(self)
                == *old(self) && r->Err_0 is ServiceError,
            (!spec_error_gate_blocks(old(self).error_status, op_num) && old(
                self,
            ).spec_has_point(point_id) && spec_stale(*old(self), point_id, op_num)) ==> r
                == Ok::<bool, OperationError>(false) && *final(self) == (Segment {
                error_status: spec_settled_error(
                    old(self).error_status,
                    op_num,
                    Some(point_id),
                    None,
                ),
                ..*old(self)
            }),
            (!spec_error_gate_blocks(old(self).error_status, op_num) && !spec_stale(
                *old(self),
                point_id,
                op_num,
            )) ==> ((r is Ok && r->Ok_0) <==> old(self).spec_has_point(point_id)),
            (!spec_error_gate_blocks(old(self).error_status, op_num) && !old(
                self,
            ).spec_has_point(point_id)) ==> (r matches Err(
                OperationError::PointIdError { missed_point_id },
            ) && missed_point_id == point_id),
            r is Err ==> final(self).version == old(self).version
                && final(self).payload_storage == old(self).payload_storage,
            (r is Ok && r->Ok_0) ==> final(self).error_status == spec_settled_error(
                old(self).error_status,
                op_num,
                Some(point_id),
                None,
            ),
            (!spec_error_gate_blocks(old(self).error_status, op_num) && !old(
                self,
            ).spec_has_point(point_id)) ==> final(self).error_status
                == spec_settled_error(
                old(self).error_status,
                op_num,
                Some(point_id),
                Some(r->Err_0),
            ),
            (r is Ok && r->Ok_0) ==> (forall|e2: PointIdType|
                e2 != point_id ==> #[trigger] final(self).spec_point_version(e2) == old(
                    self,
                ).spec_point_version(e2)),
            (r is Ok && r->Ok_0) ==> ({
                let off = old(self).id_tracker.spec_internal_id(point_id)->Some_0;
                &&& final(self).version == Some(spec_max_u64(old(self).spec_version(), op_num))
                &&& final(self).spec_point_version(point_id) == Some(op_num)
                &&& forall|key: Seq<char>|
                    #[trigger] final(self).payload_storage.spec_field_of(off, key)
                        == full_payload.spec_values(key)
                &&& forall|off2: PointOffsetType, key: Seq<char>|
                    off2 != off ==> #[trigger] final(self).payload_storage.spec_field_of(
                        off2,
                        key,
                    ) == old(self).payload_storage.spec_field_of(off2, key)
            }),
    {
        match self.check_error_gate(op_num) {
            Ok(_) => {},
            Err(e) => {
                return Err(e);
            },
        }
        let internal = self.id_tracker.internal_id(&point_id);
        match internal {
            Some(off) => {
                match self.id_tracker.internal_version(off) {
                    Some(v) => {
                        if v > op_num {
                            self.settle_error_status(op_num, Some(point_id), None);
                            return Ok(false);
                        }
                    },
                    None => {
                        proof {
                            lemma_linked_point_version(*self, point_id);
                        }
                    },
                }
                proof {
                    crate::id_tracker::lemma_link_of_contains(
                        self.id_tracker.spec_links(),
                        point_id,
                    );
                    let w = choose|w: int|
                        0 <= w < self.id_tracker.spec_links().len()
                            && self.id_tracker.spec_links()[w] == (point_id, off);
                    assert((self.id_tracker.spec_links()[w]).1
                        < self.id_tracker.spec_internal_size());
                }
                self.payload_storage.set_full(off, full_payload);
                match self.id_tracker.set_internal_version(off, op_num) {
                    Ok(_) => {},
                    Err(_) => {
                        proof {
                            assert(false);
                        }
                    },
                }
                let new_version = match self.version {
                    Some(v) => if v >= op_num {
                        v
                    } else {
                        op_num
                    },
                    None => op_num,
                };
                self.version = Some(new_version);
                self.settle_error_status(op_num, Some(point_id), None);
                proof {
                    lemma_wf_after_version_touch(*old(self), *self, point_id, off);
                    lemma_other_point_versions(
                        old(self).id_tracker,
                        self.id_tracker,
                        point_id,
                        off,
                    );
                    assert forall|e2: PointIdType| e2 != point_id
                        implies #[trigger] self.spec_point_version(e2) == old(
                        self,
                    ).spec_point_version(e2) by {
                        assert(spec_tracker_point_version(self.id_tracker, e2)
                            == spec_tracker_point_version(old(self).id_tracker, e2));
                    }
                }
                Ok(true)
            },
            None => {
                let e = OperationError::PointIdError { missed_point_id: point_id };
                let dup = e.duplicate();
                self.settle_error_status(op_num, Some(point_id), Some(&e));
                Err(dup)
            },
        }
    }

    /// Deletes one payload field of one point.
    pub fn delete_payload(
        &mut self,
        op_num: SeqNumberType,
        point_id: PointIdType,
        key: &String,
    ) -> (r: OperationResult<bool>)
        requires
            old(self).wf(),
        ensures
            final(self).wf(),
            final(self).segment_config == old(self).segment_config,
            final(self).vector_data == old(self).vector_data,
            final(self).id_tracker.spec_links() == old(self).id_tracker.spec_links(),
            final(self).payload_index == old(self).payload_index,
            spec_error_gate_blocks(old(self).error_status, op_num) ==> r is Err && *final(self)
                == *old(self) && r->Err_0 is ServiceError,
            (!spec_error_gate_blocks(old(self).error_status, op_num) && old(
                self,
            ).spec_has_point(point_id) && spec_stale(*old(self), point_id, op_num)) ==> r
                == Ok::<bool, OperationError>(false) && *final(self) == (Segment {
                error_status: spec_settled_error(
                    old(self).error_status,
                    op_num,
                    Some(point_id),
                    None,
                ),
                ..*old(self)
            }),
            (!spec_error_gate_blocks(old(self).error_status, op_num) && !spec_stale(
                *old(self),
                point_id,
                op_num,
            )) ==> ((r is Ok && r->Ok_0) <==> old(self).spec_has_point(point_id)),
            (!spec_error_gate_blocks(old(self).error_status, op_num) && !old(
                self,
            ).spec_has_point(point_id)) ==> (r matches Err(
                OperationError::PointIdError { missed_point_id },
            ) && missed_point_id == point_id),
            r is Err ==> final(self).version == old(self).version
                && final(self).payload_storage == old(self).payload_storage,
            (r is Ok && r->Ok_0) ==> final(self).error_status == spec_settled_error(
                old(self).error_status,
                op_num,
                Some(point_id),
                None,
            ),
            (!spec_error_gate_blocks(old(self).error_status, op_num) && !old(
                self,
            ).spec_has_point(point_id)) ==> final(self).error_status
                == spec_settled_error(
                old(self).error_status,
                op_num,
                Some(point_id),
                Some(r->Err_0),
            ),
            (r is Ok && r->Ok_0) ==> (forall|e2: PointIdType|
                e2 != point_id ==> #[trigger] final(self).spec_point_version(e2) == old(
                    self,
                ).spec_point_version(e2)),
            (r is Ok && r->Ok_0) ==> ({
                let off = old(self).id_tracker.spec_internal_id(point_id)->Some_0;
                &&& final(self).version == Some(spec_max_u64(old(self).spec_version(), op_num))
                &&& final(self).spec_point_version(point_id) == Some(op_num)
                &&& final(self).payload_storage.spec_field_of(off, key@) is None
                &&& forall|key2: Seq<char>|
                    key2 != key@ ==> #[trigger] final(self).payload_storage.spec_field_of(
                        off,
                        key2,
                    ) == old(self).payload_storage.spec_field_of(off, key2)
                &&& forall|off2: PointOffsetType, key2: Seq<char>|
                    off2 != off ==> #[trigger] final(self).payload_storage.spec_field_of(
                        off2,
                        key2,
                    ) == old(self).payload_storage.spec_field_of(off2, key2)
            }),
    {
        match self.check_error_gate(op_num) {
            Ok(_) => {},
            Err(e) => {
                return Err(e);
            },
        }
        let internal = self.id_tracker.internal_id(&point_id);
        match internal {
            Some(off) => {
                match self.id_tracker.internal_version(off) {
                    Some(v) => {
                        if v > op_num {
                            self.settle_error_status(op_num, Some(point_id), None);
                            return Ok(false);
                        }
                    },
                    None => {
                        proof {
                            lemma_linked_point_version(*self, point_id);
                        }
                    },
                }
                proof {
                    crate::id_tracker::lemma_link_of_contains(
                        self.id_tracker.spec_links(),
                        point_id,
                    );
                    let w = choose|w: int|
                        0 <= w < self.id_tracker.spec_links().len()
                            && self.id_tracker.spec_links()[w] == (point_id, off);
                    assert((self.id_tracker.spec_links()[w]).1
                        < self.id_tracker.spec_internal_size());
                }
                self.payload_storage.delete(off, key);
                match self.id_tracker.set_internal_version(off, op_num) {
                    Ok(_) => {},
                    Err(_) => {
                        proof {
                            assert(false);
                        }
                    },
                }
                let new_version = match self.version {
                    Some(v) => if v >= op_num {
                        v
                    } else {
                        op_num
                    },
                    None => op_num,
                };
                self.version = Some(new_version);
                self.settle_error_status(op_num, Some(point_id), None);
                proof {
                    lemma_wf_after_version_touch(*old(self), *self, point_id, off);
                    lemma_other_point_versions(
                        old(self).id_tracker,
                        self.id_tracker,
                        point_id,
                        off,
                    );
                    assert forall|e2: PointIdType| e2 != point_id
                        implies #[trigger] self.spec_point_version(e2) == old(
                        self,
                    ).spec_point_version(e2) by {
                        assert(spec_tracker_point_version(self.id_tracker, e2)
                            == spec_tracker_point_version(old(self).id_tracker, e2));
                    }
                }
                Ok(true)
            },
            None => {
                let e = OperationError::PointIdError { missed_point_id: point_id };
                let dup = e.duplicate();
                self.settle_error_status(op_num, Some(point_id), Some(&e));
                Err(dup)
            },
        }
    }

    /// Clears the whole payload of one point.
    pub fn clear_payload(&mut self, op_num: SeqNumberType, point_id: PointIdType) -> (r:
        OperationResult<bool>)
        requires
            old(self).wf(),
        ensures
            final(self).wf(),
            final(self).segment_config == old(self).segment_config,
            final(self).vector_data == old(self).vector_data,
            final(self).id_tracker.spec_links() == old(self).id_tracker.spec_links(),
            final(self).payload_index == old(self).payload_index,
            spec_error_gate_blocks(old(self).error_status, op_num) ==> r is Err && *final(self)
                == *old(self) && r->Err_0 is ServiceError,
            (!spec_error_gate_blocks(old(self).error_status, op_num) && old(
                self,
            ).spec_has_point(point_id) && spec_stale(*old(self), point_id, op_num)) ==> r
                == Ok::<bool, OperationError>(false) && *final(self) == (Segment {
                error_status: spec_settled_error(
                    old(self).error_status,
                    op_num,
                    Some(point_id),
                    None,
                ),
                ..*old(self)
            }),
            (!spec_error_gate_blocks(old(self).error_status, op_num) && !spec_stale(
                *old(self),
                point_id,
                op_num,
            )) ==> ((r is Ok && r->Ok_0) <==> old(self).spec_has_point(point_id)),
            (!spec_error_gate_blocks(old(self).error_status, op_num) && !old(
                self,
            ).spec_has_point(point_id)) ==> (r matches Err(
                OperationError::PointIdError { missed_point_id },
            ) && missed_point_id == point_id),
            r is Err ==> final(self).version == old(self).version
                && final(self).payload_storage == old(self).payload_storage,
            (r is Ok && r->Ok_0) ==> final(self).error_status == spec_settled_error(
                old(self).error_status,
                op_num,
                Some(point_id),
                None,
            ),
            (!spec_error_gate_blocks(old(self).error_status, op_num) && !old(
                self,
            ).spec_has_point(point_id)) ==> final(self).error_status
                == spec_settled_error(
                old(self).error_status,
                op_num,
                Some(point_id),
                Some(r->Err_0),
            ),
            (r is Ok && r->Ok_0) ==> (forall|e2: PointIdType|
                e2 != point_id ==> #[trigger] final(self).spec_point_version(e2) == old(
                    self,
                ).spec_point_version(e2)),
            (r is Ok && r->Ok_0) ==> ({
                let off = old(self).id_tracker.spec_internal_id(point_id)->Some_0;
                &&& final(self).version == Some(spec_max_u64(old(self).spec_version(), op_num))
                &&& final(self).spec_point_version(point_id) == Some(op_num)
                &&& forall|key: Seq<char>|
                    #[trigger] final(self).payload_storage.spec_field_of(off, key) is None
                &&& forall|off2: PointOffsetType, key: Seq<char>|
                    off2 != off ==> #[trigger] final(self).payload_storage.spec_field_of(
                        off2,
                        key,
                    ) == old(self).payload_storage.spec_field_of(off2, key)
            }),
    {
        match self.check_error_gate(op_num) {
            Ok(_) => {},
            Err(e) => {
                return Err(e);
            },
        }
        let internal = self.id_tracker.internal_id(&point_id);
        match internal {
            Some(off) => {
                match self.id_tracker.internal_version(off) {
                    Some(v) => {
                        if v > op_num {
                            self.settle_error_status(op_num, Some(point_id), None);
                            return Ok(false);
                        }
                    },
                    None => {
                        proof {
                            lemma_linked_point_version(*self, point_id);
                        }
                    },
                }
                proof {
                    crate::id_tracker::lemma_link_of_contains(
                        self.id_tracker.spec_links(),
                        point_id,
                    );
                    let w = choose|w: int|
                        0 <= w < self.id_tracker.spec_links().len()
                            && self.id_tracker.spec_links()[w] == (point_id, off);
                    assert((self.id_tracker.spec_links()[w]).1
                        < self.id_tracker.spec_internal_size());
                }
                self.payload_storage.drop_payload(off);
                match self.id_tracker.set_internal_version(off, op_num) {
                    Ok(_) => {},
                    Err(_) => {
                        proof {
                            assert(false);
                        }
                    },
                }
                let new_version = match self.version {
                    Some(v) => if v >= op_num {
                        v
                    } else {
                        op_num
                    },
                    None => op_num,
                };
                self.version = Some(new_version);
                self.settle_error_status(op_num, Some(point_id), None);
                proof {
                    lemma_wf_after_version_touch(*old(self), *self, point_id, off);
                    lemma_other_point_versions(
                        old(self).id_tracker,
                        self.id_tracker,
                        point_id,
                        off,
                    );
                    assert forall|e2: PointIdType| e2 != point_id
                        implies #[trigger] self.spec_point_version(e2) == old(
                        self,
                    ).spec_point_version(e2) by {
                        assert(spec_tracker_point_version(self.id_tracker, e2)
                            == spec_tracker_point_version(old(self).id_tracker, e2));
                    }
                }
                Ok(true)
            },
            None => {
                let e = OperationError::PointIdError { missed_point_id: point_id };
                let dup = e.duplicate();
                self.settle_error_status(op_num, Some(point_id), Some(&e));
                Err(dup)
            },
        }
    }

    /// Declares a payload field as indexed, building the field index. The
    /// segment version gates the operation.
    pub fn create_field_index(
        &mut self,
        op_num: SeqNumberType,
        key: &String,
        field_type: Option<PayloadSchemaType>,
    ) -> (r: OperationResult<bool>)
        requires
            old(self).wf(),
        ensures
            final(self).wf(),
            final(self).segment_config == old(self).segment_config,
            final(self).vector_data == old(self).vector_data,
            final(self).id_tracker == old(self).id_tracker,
            final(self).payload_storage == old(self).payload_storage,
            spec_error_gate_blocks(old(self).error_status, op_num) ==> r is Err && *final(self)
                == *old(self) && r->Err_0 is ServiceError,
            (!spec_error_gate_blocks(old(self).error_status, op_num) && old(self).spec_version()
                > op_num) ==> r == Ok::<bool, OperationError>(false)
                && *final(self) == *old(self),
            (r is Ok && r->Ok_0) ==> final(self).payload_index.spec_schema_of(key@) is Some
                && final(self).version == Some(spec_max_u64(old(self).spec_version(), op_num)),
            (r is Ok && r->Ok_0 && field_type is Some)
                ==> final(self).payload_index.spec_schema_of(key@) == Some(field_type->Some_0),
            // When no failure blocks the segment and the operation is not
            // outdated, a declared schema always succeeds; an inferred one
            // succeeds exactly when some stored payload decides it.
            (!spec_error_gate_blocks(old(self).error_status, op_num) && old(self).spec_version()
                <= op_num && field_type is Some) ==> r == Ok::<bool, OperationError>(true),
            (!spec_error_gate_blocks(old(self).error_status, op_num) && old(self).spec_version()
                <= op_num && field_type is None) ==> (r == Ok::<bool, OperationError>(true)
                <==> spec_field_inferable(*old(self), key@)),
            (!spec_error_gate_blocks(old(self).error_status, op_num) && old(self).spec_version()
                <= op_num && field_type is None && !spec_field_inferable(*old(self), key@))
                ==> (r matches Err(OperationError::TypeInferenceError { field_name })
                && field_name@ == key@) && final(self).error_status == spec_settled_error(
                old(self).error_status,
                op_num,
                None,
                Some(r->Err_0),
            ),
            (r is Ok && r->Ok_0) ==> final(self).error_status == spec_settled_error(
                old(self).error_status,
                op_num,
                None,
                None,
            ),
    {
        match self.check_error_gate(op_num) {
            Ok(_) => {},
            Err(e) => {
                return Err(e);
            },
        }
        let current = match self.version {
            Some(v) => v,
            None => 0,
        };
        if current > op_num {
            return Ok(false);
        }
        let schema = match field_type {
            Some(s) => s,
            None => {
                match self.infer_from_payload_data(key) {
                    Some(s) => s,
                    None => {
                        let e = OperationError::TypeInferenceError { field_name: key.clone() };
                        let dup = e.duplicate();
                        self.settle_error_status(op_num, None, Some(&e));
                        return Err(dup);
                    },
                }
            },
        };
        self.payload_index.set_indexed(key.clone(), schema);
        let new_version = match self.version {
            Some(v) => if v >= op_num {
                v
            } else {
                op_num
            },
            None => op_num,
        };
        self.version = Some(new_version);
        self.settle_error_status(op_num, None, None);
        Ok(true)
    }

    /// Removes a field index. The segment version gates the operation.
    pub fn delete_field_index(&mut self, op_num: SeqNumberType, key: &String) -> (r:
        OperationResult<bool>)
        requires
            old(self).wf(),
        ensures
            final(self).wf(),
            final(self).segment_config == old(self).segment_config,
            final(self).vector_data == old(self).vector_data,
            final(self).id_tracker == old(self).id_tracker,
            final(self).payload_storage == old(self).payload_storage,
            spec_error_gate_blocks(old(self).error_status, op_num) ==> r is Err && *final(self)
                == *old(self) && r->Err_0 is ServiceError,
            (!spec_error_gate_blocks(old(self).error_status, op_num) && old(self).spec_version()
                > op_num) ==> r == Ok::<bool, OperationError>(false)
                && *final(self) == *old(self),
            (r is Ok && r->Ok_0) ==> final(self).payload_index.spec_schema_of(key@) is None
                && final(self).version == Some(spec_max_u64(old(self).spec_version(), op_num)),
            // When no failure blocks the segment and the operation is not
            // outdated, the removal always succeeds.
            (!spec_error_gate_blocks(old(self).error_status, op_num) && old(self).spec_version()
                <= op_num) ==> r == Ok::<bool, OperationError>(true),
            (r is Ok && r->Ok_0) ==> final(self).error_status == spec_settled_error(
                old(self).error_status,
                op_num,
                None,
                None,
            ),
    {
        match self.check_error_gate(op_num) {
            Ok(_) => {},
            Err(e) => {
                return Err(e);
            },
        }
        let current = match self.version {
            Some(v) => v,
            None => 0,
        };
        if current > op_num {
            return Ok(false);
        }
        self.payload_index.drop_index(key);
        let new_version = match self.version {
            Some(v) => if v >= op_num {
                v
            } else {
                op_num
            },
            None => op_num,
        };
        self.version = Some(new_version);
        self.settle_error_status(op_num, None, None);
        Ok(true)
    }

    /// Infers a field's schema from stored payload values: the first live
    /// point holding the field decides.
    #[verifier::loop_isolation(false)]
    pub fn infer_from_payload_data(&self, key: &String) -> (r: Option<PayloadSchemaType>)
        requires
            self.wf(),
        ensures
            r is Some <==> spec_field_inferable(*self, key@),
    {
        let links = self.id_tracker.iter_from(None);
        let n = links.len();
        let mut k: usize = 0;
        while k < n
            invariant
                0 <= k <= n,
                n == links@.len(),
                links@ == self.id_tracker.spec_links(),
                forall|j: int|
                    0 <= j < k ==> !spec_entry_inferable(
                        self.payload_storage.spec_field_of((#[trigger] links@[j]).1, key@),
                    ),
            decreases n - k,
        {
            let off = links[k].1;
            match self.payload_storage.payload(off) {
                Some(p) => {
                    match p.get(key) {
                        Some(values) => {
                            if values.len() > 0 {
                                let schema = match &values[0] {
                                    PayloadValue::Keyword(_) => Some(PayloadSchemaType::Keyword),
                                    PayloadValue::Integer(_) => Some(PayloadSchemaType::Integer),
                                    PayloadValue::Bool(_) => Some(PayloadSchemaType::Bool),
                                    PayloadValue::Null => None,
                                };
                                if schema.is_some() {
                                    proof {
                                        assert(spec_entry_inferable(
                                            self.payload_storage.spec_field_of(off, key@),
                                        ));
                                        assert(spec_field_inferable(*self, key@)) by {
                                            assert(0 <= k < self.id_tracker.spec_links().len()
                                                && spec_entry_inferable(
                                                self.payload_storage.spec_field_of(
                                                    (self.id_tracker.spec_links()[k as int]).1,
                                                    key@,
                                                ),
                                            ));
                                        }
                                    }
                                    return schema;
                                }
                            }
                        },
                        None => {},
                    }
                },
                None => {},
            }
            k = k + 1;
        }
        proof {
            if spec_field_inferable(*self, key@) {
                let w = choose|w: int|
                    0 <= w < self.id_tracker.spec_links().len() && spec_entry_inferable(
                        self.payload_storage.spec_field_of(
                            (#[trigger] self.id_tracker.spec_links()[w]).1,
                            key@,
                        ),
                    );
                assert(!spec_entry_inferable(
                    self.payload_storage.spec_field_of(links@[w].1, key@),
                ));
            }
        }
        None
    }
}

/// The field holds at least one value, and the first is not null: the
/// schema can be read off it.
pub open spec fn spec_entry_inferable(v: Option<Seq<PayloadValue>>) -> bool {
    &&& v is Some
    &&& v->Some_0.len() > 0
    &&& !(v->Some_0[0] is Null)
}

/// Some live point lets the field's schema be inferred.
pub open spec fn spec_field_inferable(seg: Segment, key: Seq<char>) -> bool {
    exists|k: int|
        0 <= k < seg.id_tracker.spec_links().len() && spec_entry_inferable(
            seg.payload_storage.spec_field_of((#[trigger] seg.id_tracker.spec_links()[k]).1, key),
        )
}


/// One search hit, resolved to its external id and hydrated according to
/// the request flags.
pub struct ScoredPoint {
    pub id: PointIdType,
    pub version: SeqNumberType,
    pub score: crate::types::ScoreType,
    pub payload: Option<Payload>,
    pub vector: Option<NamedVectors>,
}

/// The entry's identity fields are those of the candidate link it stands
/// for.
pub open spec fn spec_entry_core_ok(
    seg: Segment,
    query: Seq<VectorElementType>,
    si: int,
    link: (PointIdType, PointOffsetType),
    entry: ScoredPoint,
) -> bool {
    &&& entry.id == link.0
    &&& Some(entry.version) == seg.id_tracker.spec_version_of(link.1)
    &&& entry.score as int == crate::vector_storage::spec_score(
        seg.segment_config.vector_data@[si].1.distance,
        query,
        seg.vector_data@[si].1.vector_storage.vectors@[link.1 as int]@,
    )
}

/// The entry's payload and vectors are hydrated as the request flags ask.
pub open spec fn spec_entry_hydration_ok(
    seg: Segment,
    link: (PointIdType, PointOffsetType),
    entry: ScoredPoint,
    with_payload: crate::types::WithPayload,
    with_vector: crate::types::WithVector,
) -> bool {
    &&& (match entry.payload {
        Some(p) => with_payload.enable && forall|key: Seq<char>|
            #[trigger] p.spec_values(key) == seg.payload_storage.spec_field_of(link.1, key),
        None => !with_payload.enable,
    })
    &&& (match with_vector {
        crate::types::WithVector::Enable(b) => (b <==> entry.vector is Some) && (b
            ==> spec_named_vectors_of(seg, link.1, entry.vector->Some_0)),
        crate::types::WithVector::Selector(names) => entry.vector is Some
            && spec_selected_vectors_of(seg, link.1, names@, entry.vector->Some_0),
    })
}

/// The hydrated vectors hold every configured vector of the point, in
/// configuration order.
pub open spec fn spec_named_vectors_of(
    seg: Segment,
    off: PointOffsetType,
    nv: NamedVectors,
) -> bool {
    &&& nv.pairs@.len() == seg.segment_config.vector_data@.len()
    &&& forall|i: int|
        0 <= i < nv.pairs@.len() ==> (#[trigger] nv.pairs@[i]).0@
            == seg.segment_config.vector_data@[i].0@ && nv.pairs@[i].1@
            == seg.vector_data@[i].1.vector_storage.vectors@[off as int]@
}

/// The hydrated vectors hold exactly the selected names, in selection
/// order.
pub open spec fn spec_selected_vectors_of(
    seg: Segment,
    off: PointOffsetType,
    names: Seq<String>,
    nv: NamedVectors,
) -> bool {
    &&& nv.pairs@.len() == names.len()
    &&& forall|i: int|
        0 <= i < names.len() ==> (#[trigger] nv.pairs@[i]).0@ == names[i]@ && ({
            let si = crate::assoc::assoc_index_of(
                seg.segment_config.vector_data@,
                names[i]@,
            );
            si is Some && nv.pairs@[i].1@
                == seg.vector_data@[si->Some_0].1.vector_storage.vectors@[off as int]@
        })
}

/// What a successful search returns: a top-`top` selection of the live
/// points matching the filter, scored against the query on the named
/// vector, sorted by descending score and hydrated per the request flags.
pub open spec fn spec_search_selection(
    seg: Segment,
    si: int,
    query: Seq<VectorElementType>,
    filter: Option<Filter>,
    with_payload: crate::types::WithPayload,
    with_vector: crate::types::WithVector,
    top: int,
    out: Seq<ScoredPoint>,
    sel: Seq<int>,
) -> bool {
    let cands = crate::vector_index::spec_search_candidates(
        seg.payload_storage,
        seg.id_tracker,
        filter,
    );
    {
        &&& out.len() == sel.len()
        &&& out.len() == (if top <= cands.len() {
            top
        } else {
            cands.len() as int
        })
        &&& forall|k: int| 0 <= k < sel.len() ==> 0 <= #[trigger] sel[k] < cands.len()
        &&& forall|k: int|
            0 <= k < sel.len() ==> spec_entry_core_ok(
                seg,
                query,
                si,
                cands[#[trigger] sel[k]],
                out[k],
            ) && spec_entry_hydration_ok(
                seg,
                cands[sel[k]],
                out[k],
                with_payload,
                with_vector,
            )
        &&& forall|a: int, b: int| 0 <= a < b < sel.len() ==> sel[a] != sel[b]
        &&& forall|a: int, b: int| 0 <= a < b < out.len() ==> out[a].score >= out[b].score
        &&& forall|j: int|
            0 <= j < cands.len() && !sel.contains(j) && out.len() > 0 ==> crate::vector_storage::spec_score(
                seg.segment_config.vector_data@[si].1.distance,
                query,
                seg.vector_data@[si].1.vector_storage.vectors@[(#[trigger] cands[j]).1 as int]@,
            ) <= out[out.len() - 1].score
    }
}

pub open spec fn spec_search_ok(
    seg: Segment,
    si: int,
    query: Seq<VectorElementType>,
    filter: Option<Filter>,
    with_payload: crate::types::WithPayload,
    with_vector: crate::types::WithVector,
    top: int,
    out: Seq<ScoredPoint>,
) -> bool {
    exists|sel: Seq<int>|
        spec_search_selection(
            seg,
            si,
            query,
            filter,
            with_payload,
            with_vector,
            top,
            out,
            sel,
        )
}

/// One direction of score agreement between two results of one search.
proof fn lemma_search_scores_le(
    seg: Segment,
    si: int,
    query: Seq<VectorElementType>,
    filter: Option<Filter>,
    wpa: crate::types::WithPayload,
    wva: crate::types::WithVector,
    wpb: crate::types::WithPayload,
    wvb: crate::types::WithVector,
    top: int,
    outa: Seq<ScoredPoint>,
    sela: Seq<int>,
    outb: Seq<ScoredPoint>,
    selb: Seq<int>,
)
    requires
        spec_search_selection(seg, si, query, filter, wpa, wva, top, outa, sela),
        spec_search_selection(seg, si, query, filter, wpb, wvb, top, outb, selb),
    ensures
        forall|k: int| 0 <= k < outa.len() ==> (#[trigger] outa[k]).score <= outb[k].score,
{
    let cands = crate::vector_index::spec_search_candidates(
        seg.payload_storage,
        seg.id_tracker,
        filter,
    );
    let m = outa.len() as int;
    assert forall|k: int| 0 <= k < m implies (#[trigger] outa[k]).score <= outb[k].score by {
        if outa[k].score > outb[k].score {
            // The first result's k + 1 best rows all score above the
            // second's k-th row, so each must sit among the second
            // selection's first k rows: one row short of them.
            let t = sela.subrange(0, k + 1);
            let u = selb.subrange(0, k);
            assert(t.no_duplicates());
            assert(u.no_duplicates());
            t.unique_seq_to_set();
            u.unique_seq_to_set();
            vstd::seq_lib::seq_to_set_is_finite(t);
            vstd::seq_lib::seq_to_set_is_finite(u);
            assert forall|x: int| t.to_set().contains(x) implies u.to_set().contains(x) by {
                let a = choose|a: int| 0 <= a < t.len() && t[a] == x;
                assert(sela[a] == x);
                assert(spec_entry_core_ok(seg, query, si, cands[x], outa[a]));
                assert(outa[a].score >= outa[k].score);
                assert(selb.contains(x)) by {
                    if !selb.contains(x) {
                        assert(crate::vector_storage::spec_score(
                            seg.segment_config.vector_data@[si].1.distance,
                            query,
                            seg.vector_data@[si].1.vector_storage.vectors@[(cands[x]).1 as int]@,
                        ) <= outb[m - 1].score);
                        assert(outb[m - 1].score <= outb[k].score);
                    }
                }
                let j = choose|j: int| 0 <= j < selb.len() && selb[j] == x;
                assert(spec_entry_core_ok(seg, query, si, cands[x], outb[j]));
                assert(j < k) by {
                    if j > k {
                        assert(outb[k].score >= outb[j].score);
                    }
                }
                assert(u[j] == x);
            }
            assert(t.to_set().subset_of(u.to_set()));
            vstd::set_lib::lemma_len_subset(t.to_set(), u.to_set());
        }
    }
}

/// Any two results of one and the same search agree score for score, row
/// by row: a tie may change which point a row returns, never with which
/// score. In particular a batch row scores exactly as the single search
/// it stands for, whatever the hydration flags.
pub proof fn lemma_search_rows_score_equal(
    seg: Segment,
    si: int,
    query: Seq<VectorElementType>,
    filter: Option<Filter>,
    wp1: crate::types::WithPayload,
    wv1: crate::types::WithVector,
    wp2: crate::types::WithPayload,
    wv2: crate::types::WithVector,
    top: int,
    out1: Seq<ScoredPoint>,
    out2: Seq<ScoredPoint>,
)
    requires
        spec_search_ok(seg, si, query, filter, wp1, wv1, top, out1),
        spec_search_ok(seg, si, query, filter, wp2, wv2, top, out2),
    ensures
        out1.len() == out2.len(),
        forall|k: int| 0 <= k < out1.len() ==> (#[trigger] out1[k]).score == out2[k].score,
{
    let sel1 = choose|sel: Seq<int>|
        spec_search_selection(seg, si, query, filter, wp1, wv1, top, out1, sel);
    let sel2 = choose|sel: Seq<int>|
        spec_search_selection(seg, si, query, filter, wp2, wv2, top, out2, sel);
    lemma_search_scores_le(
        seg,
        si,
        query,
        filter,
        wp1,
        wv1,
        wp2,
        wv2,
        top,
        out1,
        sel1,
        out2,
        sel2,
    );
    lemma_search_scores_le(
        seg,
        si,
        query,
        filter,
        wp2,
        wv2,
        wp1,
        wv1,
        top,
        out2,
        sel2,
        out1,
        sel1,
    );
}

impl Segment {
    /// Builds the hydrated vectors of one point for an all-vectors request.
    #[verifier::loop_isolation(false)]
    fn hydrate_all_vectors(&self, off: PointOffsetType) -> (r: NamedVectors)
        requires
            self.wf(),
            off < self.id_tracker.spec_internal_size(),
        ensures
            spec_named_vectors_of(*self, off, r),
    {
        let n = self.vector_data.len();
        let mut pairs: Vec<(String, Vec<VectorElementType>)> = Vec::new();
        let mut i: usize = 0;
        while i < n
            invariant
                0 <= i <= n,
                pairs@.len() == i,
                forall|j: int|
                    0 <= j < i ==> (#[trigger] pairs@[j]).0@
                        == self.segment_config.vector_data@[j].0@ && pairs@[j].1@
                        == self.vector_data@[j].1.vector_storage.vectors@[off as int]@,
            decreases n - i,
        {
            let name = self.vector_data[i].0.clone();
            let vec = copy_vector(self.vector_data[i].1.vector_storage.vector_at(off));
            pairs.push((name, vec));
            i = i + 1;
        }
        NamedVectors { pairs }
    }

    /// Builds the hydrated vectors of one point for a named selection;
    /// an unknown name is an error.
    #[verifier::loop_isolation(false)]
    fn hydrate_selected_vectors(&self, off: PointOffsetType, names: &Vec<String>) -> (r:
        OperationResult<NamedVectors>)
        requires
            self.wf(),
            off < self.id_tracker.spec_internal_size(),
        ensures
            match r {
                Ok(nv) => spec_selected_vectors_of(*self, off, names@, nv),
                Err(e) => e is ServiceError && exists|i: int|
                    0 <= i < names@.len() && crate::assoc::assoc_index_of(
                        self.segment_config.vector_data@,
                        (#[trigger] names@[i])@,
                    ) is None,
            },
    {
        let n = names.len();
        let mut pairs: Vec<(String, Vec<VectorElementType>)> = Vec::new();
        let mut i: usize = 0;
        while i < n
            invariant
                0 <= i <= n,
                pairs@.len() == i,
                forall|j: int|
                    0 <= j < i ==> (#[trigger] pairs@[j]).0@ == names@[j]@ && ({
                        let si = crate::assoc::assoc_index_of(
                            self.segment_config.vector_data@,
                            names@[j]@,
                        );
                        si is Some && pairs@[j].1@
                            == self.vector_data@[si->Some_0].1.vector_storage.vectors@[off as int]@
                    }),
            decreases n - i,
        {
            let name = &names[i];
            match assoc_find(&self.segment_config.vector_data, name) {
                Some(si) => {
                    let vec = copy_vector(
                        self.vector_data[si].1.vector_storage.vector_at(off),
                    );
                    pairs.push((name.clone(), vec));
                },
                None => {
                    return Err(
                        OperationError::ServiceError {
                            description: "requested vector name is not configured".to_owned(),
                        },
                    );
                },
            }
            i = i + 1;
        }
        Ok(NamedVectors { pairs })
    }

    /// Filtered nearest-neighbour search on one named vector: validates the
    /// request, runs the index, and resolves internal hits to hydrated
    /// scored points.
    #[verifier::loop_isolation(false)]
    #[verifier::rlimit(80)]
    pub fn search(
        &self,
        vector_name: &String,
        vector: &Vec<VectorElementType>,
        with_payload: &crate::types::WithPayload,
        with_vector: &crate::types::WithVector,
        filter: Option<&Filter>,
        top: usize,
        params: Option<&crate::types::SearchParams>,
    ) -> (r: OperationResult<Vec<ScoredPoint>>)
        requires
            self.wf(),
        ensures
            r is Ok ==> crate::assoc::assoc_index_of(
                self.segment_config.vector_data@,
                vector_name@,
            ) is Some,
            r is Ok ==> vector@.len() == self.segment_config.vector_data@[crate::assoc::assoc_index_of(
                self.segment_config.vector_data@,
                vector_name@,
            )->Some_0].1.size,
            r is Ok ==> spec_search_ok(
                *self,
                crate::assoc::assoc_index_of(
                    self.segment_config.vector_data@,
                    vector_name@,
                )->Some_0,
                vector@,
                crate::vector_index::spec_opt_filter(filter),
                *with_payload,
                *with_vector,
                top as int,
                r->Ok_0@,
            ),
            r is Err ==> ((r->Err_0 is ServiceError) || (r->Err_0 matches OperationError::WrongVector {
                expected_dim,
                received_dim,
            } && crate::assoc::assoc_index_of(
                self.segment_config.vector_data@,
                vector_name@,
            ) is Some && expected_dim == self.segment_config.vector_data@[crate::assoc::assoc_index_of(
                self.segment_config.vector_data@,
                vector_name@,
            )->Some_0].1.size && received_dim == vector@.len())),
            // An unknown vector name is an internal error.
            crate::assoc::assoc_index_of(self.segment_config.vector_data@, vector_name@) is None
                ==> r is Err && r->Err_0 is ServiceError,
            // A dimension mismatch is reported as exactly that.
            (crate::assoc::assoc_index_of(self.segment_config.vector_data@, vector_name@)
                is Some && vector@.len() != self.segment_config.vector_data@[crate::assoc::assoc_index_of(
                self.segment_config.vector_data@,
                vector_name@,
            )->Some_0].1.size) ==> (r matches Err(OperationError::WrongVector {
                expected_dim,
                received_dim,
            }) && expected_dim == self.segment_config.vector_data@[crate::assoc::assoc_index_of(
                self.segment_config.vector_data@,
                vector_name@,
            )->Some_0].1.size && received_dim == vector@.len()),
            // An unknown name in a vector selection is an internal error.
            (crate::assoc::assoc_index_of(self.segment_config.vector_data@, vector_name@)
                is Some && vector@.len() == self.segment_config.vector_data@[crate::assoc::assoc_index_of(
                self.segment_config.vector_data@,
                vector_name@,
            )->Some_0].1.size && bounded_vector(vector@) && (with_vector matches crate::types::WithVector::Selector(names) && (exists|i: int|
                0 <= i < names@.len() && crate::assoc::assoc_index_of(
                    self.segment_config.vector_data@,
                    (#[trigger] names@[i])@,
                ) is None))) ==> r is Err && r->Err_0 is ServiceError,
            r is Err ==> ({
                let si = crate::assoc::assoc_index_of(
                    self.segment_config.vector_data@,
                    vector_name@,
                );
                ||| si is None
                ||| vector@.len() != self.segment_config.vector_data@[si->Some_0].1.size
                ||| !bounded_vector(vector@)
                ||| (with_vector matches crate::types::WithVector::Selector(names) && exists|i: int|
                    0 <= i < names@.len() && crate::assoc::assoc_index_of(
                        self.segment_config.vector_data@,
                        (#[trigger] names@[i])@,
                    ) is None)
            }),
    {
        let si = match assoc_find(&self.segment_config.vector_data, vector_name) {
            Some(si) => si,
            None => {
                return Err(
                    OperationError::ServiceError {
                        description: "vector name is not configured in this segment".to_owned(),
                    },
                );
            },
        };
        let cfg = self.segment_config.vector_data[si].1;
        if vector.len() != cfg.size {
            return Err(
                OperationError::WrongVector {
                    expected_dim: cfg.size,
                    received_dim: vector.len(),
                },
            );
        }
        let dim = vector.len();
        let mut k0: usize = 0;
        while k0 < dim
            invariant
                0 <= k0 <= dim,
                dim == vector@.len(),
                forall|j: int|
                    0 <= j < k0 ==> -crate::types::VECTOR_ELEMENT_BOUND <= (
                    #[trigger] vector@[j]) <= crate::types::VECTOR_ELEMENT_BOUND,
            decreases dim - k0,
        {
            let x = vector[k0];
            if x < -crate::types::VECTOR_ELEMENT_BOUND || x > crate::types::VECTOR_ELEMENT_BOUND {
                return Err(
                    OperationError::ServiceError {
                        description: "query component out of fixed-point range".to_owned(),
                    },
                );
            }
            k0 = k0 + 1;
        }
        // Validate a vector-name selection up front, so an unknown name is
        // reported whatever the result set holds.
        match with_vector {
            crate::types::WithVector::Selector(names) => {
                let n2 = names.len();
                let mut k1: usize = 0;
                while k1 < n2
                    invariant
                        0 <= k1 <= n2,
                        n2 == names@.len(),
                        forall|j: int|
                            0 <= j < k1 ==> crate::assoc::assoc_index_of(
                                self.segment_config.vector_data@,
                                (#[trigger] names@[j])@,
                            ) is Some,
                    decreases n2 - k1,
                {
                    if assoc_find(&self.segment_config.vector_data, &names[k1]).is_none() {
                        return Err(
                            OperationError::ServiceError {
                                description: "requested vector name is not configured"
                                    .to_owned(),
                            },
                        );
                    }
                    k1 = k1 + 1;
                }
            },
            _ => {},
        }
        let storage = &self.vector_data[si].1.vector_storage;
        let index = &self.vector_data[si].1.vector_index;
        let scored = index.search_scored(
            storage,
            &self.id_tracker,
            &self.payload_storage,
            &self.payload_index,
            vector,
            filter,
            top,
            params,
        );
        let ghost cands = crate::vector_index::spec_search_candidates(
            self.payload_storage,
            self.id_tracker,
            crate::vector_index::spec_opt_filter(filter),
        );
        let ghost gsel = choose|gsel: Seq<int>|
            crate::vector_index::spec_top_selection(
                crate::vector_index::spec_scored_candidates(*storage, vector@, cands),
                top as int,
                scored@,
                gsel,
            );
        proof {
            match filter {
                Some(f) => {
                    crate::payload_index::lemma_filter_subset(
                        self.id_tracker.spec_links(),
                        (|l: (PointIdType, PointOffsetType)|
                            crate::payload_index::spec_link_matches(self.payload_storage, *f, l)),
                    );
                },
                None => {},
            }
            assert forall|j: int| 0 <= j < cands.len() implies (#[trigger] cands[j]).1
                < self.id_tracker.spec_internal_size() && self.id_tracker.spec_version_of(
                cands[j].1,
            ) is Some && self.id_tracker.spec_external_id(cands[j].1) == Some(cands[j].0) by {
                assert(self.id_tracker.spec_links().contains(cands[j]));
                let w = choose|w: int|
                    0 <= w < self.id_tracker.spec_links().len()
                        && self.id_tracker.spec_links()[w] == cands[j];
                assert((self.id_tracker.spec_links()[w]).1
                    < self.id_tracker.spec_internal_size());
                assert(self.id_tracker.spec_version_of(
                    (self.id_tracker.spec_links()[w]).1,
                ) is Some);
                crate::id_tracker::lemma_contains_to_lookups(
                    self.id_tracker.spec_links(),
                    cands[j].0,
                    cands[j].1,
                );
            }
            let stor = self.vector_data@[si as int].1.vector_storage;
            assert forall|j: int| 0 <= j < cands.len() implies (
            #[trigger] crate::vector_index::spec_scored_candidates(stor, vector@, cands)[j]).score
                as int == crate::vector_storage::spec_score(
                stor.distance,
                vector@,
                stor.vectors@[cands[j].1 as int]@,
            ) by {
                crate::vector_storage::lemma_score_fits(
                    stor.distance,
                    vector@,
                    stor.vectors@[cands[j].1 as int]@,
                );
            }
        }
        let m = scored.len();
        let mut out: Vec<ScoredPoint> = Vec::new();
        let mut k: usize = 0;
        while k < m
            invariant
                0 <= k <= m,
                m == scored@.len(),
                out@.len() == k,
                crate::vector_index::spec_top_selection(
                    crate::vector_index::spec_scored_candidates(
                        self.vector_data@[si as int].1.vector_storage,
                        vector@,
                        cands,
                    ),
                    top as int,
                    scored@,
                    gsel,
                ),
                forall|j: int|
                    0 <= j < cands.len() ==> (#[trigger] cands[j]).1
                        < self.id_tracker.spec_internal_size()
                        && self.id_tracker.spec_version_of(cands[j].1) is Some
                        && self.id_tracker.spec_external_id(cands[j].1) == Some(cands[j].0),
                forall|j: int|
                    0 <= j < k ==> spec_entry_core_ok(
                        *self,
                        vector@,
                        si as int,
                        cands[gsel[j]],
                        #[trigger] out@[j],
                    ) && spec_entry_hydration_ok(
                        *self,
                        cands[gsel[j]],
                        out@[j],
                        *with_payload,
                        *with_vector,
                    ) && out@[j].score == scored@[j].score,
            decreases m - k,
        {
            let spo = scored[k];
            proof {
                assert(scored@[k as int] == crate::vector_index::spec_scored_candidates(
                    self.vector_data@[si as int].1.vector_storage,
                    vector@,
                    cands,
                )[gsel[k as int]]);
            }
            let ext = match self.id_tracker.external_id(spo.idx) {
                Some(e) => e,
                None => {
                    proof {
                        assert(false);
                    }
                    return Err(
                        OperationError::ServiceError {
                            description: "missing external id".to_owned(),
                        },
                    );
                },
            };
            let version = match self.id_tracker.internal_version(spo.idx) {
                Some(v) => v,
                None => {
                    proof {
                        assert(false);
                    }
                    return Err(
                        OperationError::ServiceError {
                            description: "missing point version".to_owned(),
                        },
                    );
                },
            };
            let payload: Option<Payload> = if with_payload.enable {
                match self.payload_storage.payload(spo.idx) {
                    Some(p) => Some(p.duplicate()),
                    None => {
                        proof {
                            assert(false);
                        }
                        None
                    },
                }
            } else {
                None
            };
            let vectors_out: Option<NamedVectors> = match with_vector {
                crate::types::WithVector::Enable(b) => {
                    if *b {
                        Some(self.hydrate_all_vectors(spo.idx))
                    } else {
                        None
                    }
                },
                crate::types::WithVector::Selector(names) => {
                    match self.hydrate_selected_vectors(spo.idx, names) {
                        Ok(nv) => Some(nv),
                        Err(_) => {
                            proof {
                                assert(false);
                            }
                            None
                        },
                    }
                },
            };
            out.push(
                ScoredPoint { id: ext, version, score: spo.score, payload, vector: vectors_out },
            );
            k = k + 1;
        }
        proof {
            let stor = self.vector_data@[si as int].1.vector_storage;
            let scs = crate::vector_index::spec_scored_candidates(stor, vector@, cands);
            assert forall|j: int| 0 <= j < cands.len() && !gsel.contains(j) && out@.len()
                > 0 implies crate::vector_storage::spec_score(
                self.segment_config.vector_data@[si as int].1.distance,
                vector@,
                self.vector_data@[si as int].1.vector_storage.vectors@[(
                #[trigger] cands[j]).1 as int]@,
            ) <= out@[out@.len() - 1].score by {
                assert(scs[j].score <= scored@[scored@.len() - 1].score);
                crate::vector_storage::lemma_score_fits(
                    stor.distance,
                    vector@,
                    stor.vectors@[cands[j].1 as int]@,
                );
                assert(out@[out@.len() - 1].score == scored@[scored@.len() - 1].score);
            }
            assert(spec_search_ok(
                *self,
                si as int,
                vector@,
                crate::vector_index::spec_opt_filter(filter),
                *with_payload,
                *with_vector,
                top as int,
                out@,
            )) by {
                assert({
                    &&& out@.len() == gsel.len()
                    &&& out@.len() == (if top as int <= cands.len() {
                        top as int
                    } else {
                        cands.len() as int
                    })
                    &&& forall|k2: int|
                        0 <= k2 < gsel.len() ==> 0 <= #[trigger] gsel[k2] < cands.len()
                    &&& forall|k2: int|
                        0 <= k2 < gsel.len() ==> spec_entry_core_ok(
                            *self,
                            vector@,
                            si as int,
                            cands[#[trigger] gsel[k2]],
                            out@[k2],
                        ) && spec_entry_hydration_ok(
                            *self,
                            cands[gsel[k2]],
                            out@[k2],
                            *with_payload,
                            *with_vector,
                        )
                    &&& forall|a: int, b: int| 0 <= a < b < gsel.len() ==> gsel[a] != gsel[b]
                    &&& forall|a: int, b: int|
                        0 <= a < b < out@.len() ==> out@[a].score >= out@[b].score
                    &&& forall|j: int|
                        0 <= j < cands.len() && !gsel.contains(j) && out@.len() > 0
                            ==> crate::vector_storage::spec_score(
                            self.segment_config.vector_data@[si as int].1.distance,
                            vector@,
                            self.vector_data@[si as int].1.vector_storage.vectors@[(
                            #[trigger] cands[j]).1 as int]@,
                        ) <= out@[out@.len() - 1].score
                });
                assert(spec_search_selection(
                    *self,
                    si as int,
                    vector@,
                    crate::vector_index::spec_opt_filter(filter),
                    *with_payload,
                    *with_vector,
                    top as int,
                    out@,
                    gsel,
                ));
            }
        }
        Ok(out)
    }

    /// Searches several queries against the same named vector; each row is
    /// the result the single search would give.
    #[verifier::loop_isolation(false)]
    pub fn search_batch(
        &self,
        vector_name: &String,
        vectors: &Vec<Vec<VectorElementType>>,
        with_payload: &crate::types::WithPayload,
        with_vector: &crate::types::WithVector,
        filter: Option<&Filter>,
        top: usize,
        params: Option<&crate::types::SearchParams>,
    ) -> (r: OperationResult<Vec<Vec<ScoredPoint>>>)
        requires
            self.wf(),
        ensures
            r is Ok ==> r->Ok_0@.len() == vectors@.len(),
            (r is Ok && vectors@.len() > 0) ==> ({
                let si = crate::assoc::assoc_index_of(
                    self.segment_config.vector_data@,
                    vector_name@,
                );
                &&& si is Some
                &&& forall|i: int|
                    0 <= i < vectors@.len() ==> spec_search_ok(
                        *self,
                        si->Some_0,
                        (#[trigger] vectors@[i])@,
                        crate::vector_index::spec_opt_filter(filter),
                        *with_payload,
                        *with_vector,
                        top as int,
                        r->Ok_0@[i]@,
                    )
            }),
    {
        let n = vectors.len();
        let mut out: Vec<Vec<ScoredPoint>> = Vec::new();
        let mut i: usize = 0;
        let ghost si = crate::assoc::assoc_index_of(
            self.segment_config.vector_data@,
            vector_name@,
        );
        while i < n
            invariant
                0 <= i <= n,
                self.wf(),
                n == vectors@.len(),
                out@.len() == i,
                i > 0 ==> si is Some,
                forall|j: int|
                    0 <= j < i ==> spec_search_ok(
                        *self,
                        si->Some_0,
                        (#[trigger] vectors@[j])@,
                        crate::vector_index::spec_opt_filter(filter),
                        *with_payload,
                        *with_vector,
                        top as int,
                        out@[j]@,
                    ),
            decreases n - i,
        {
            match self.search(vector_name, &vectors[i], with_payload, with_vector, filter, top, params) {
                Ok(row) => {
                    out.push(row);
                },
                Err(e) => {
                    return Err(e);
                },
            }
            i = i + 1;
        }
        Ok(out)
    }
}


/// The read-filter predicate of a scroll request: the point satisfies the
/// filter (when one is given) and its external id is not below the offset
/// (when one is given).
pub open spec fn spec_scroll_pred(
    seg: Segment,
    offset: Option<PointIdType>,
    filter: Option<Filter>,
) -> spec_fn((PointIdType, PointOffsetType)) -> bool {
    |l: (PointIdType, PointOffsetType)|
        {
            &&& (match offset {
                Some(o) => crate::types::point_id_le(o, l.0),
                None => true,
            })
            &&& (match filter {
                Some(f) => crate::payload_index::spec_link_matches(seg.payload_storage, f, l),
                None => true,
            })
        }
}

/// What a scroll request returns: the first `limit` live links at or past
/// the offset that satisfy the filter, in ascending external order, as
/// external ids.
pub open spec fn spec_read_filtered(
    seg: Segment,
    offset: Option<PointIdType>,
    limit: Option<usize>,
    filter: Option<Filter>,
) -> Seq<PointIdType> {
    let matched = seg.id_tracker.spec_links().filter(spec_scroll_pred(seg, offset, filter));
    let cut = match limit {
        Some(l) => if l as int <= matched.len() {
            l as int
        } else {
            matched.len() as int
        },
        None => matched.len() as int,
    };
    matched.take(cut).map_values(|l: (PointIdType, PointOffsetType)| l.0)
}

/// The owned form of a borrowed option.
pub open spec fn spec_opt_id(o: Option<&PointIdType>) -> Option<PointIdType> {
    match o {
        Some(x) => Some(*x),
        None => None,
    }
}

/// The predicate of a range read: the external id lies in `[from, to)`.
pub open spec fn spec_range_matches(
    from: Option<PointIdType>,
    to: Option<PointIdType>,
    l: (PointIdType, PointOffsetType),
) -> bool {
    &&& (match from {
        Some(o) => crate::types::point_id_le(o, l.0),
        None => true,
    })
    &&& (match to {
        Some(t) => crate::types::point_id_lt(l.0, t),
        None => true,
    })
}

/// What a range read returns: the live external ids in `[from, to)`,
/// ascending.
pub open spec fn spec_read_range(
    seg: Segment,
    from: Option<PointIdType>,
    to: Option<PointIdType>,
) -> Seq<PointIdType> {
    seg.id_tracker.spec_links().filter(
        |l: (PointIdType, PointOffsetType)| spec_range_matches(from, to, l),
    ).map_values(|l: (PointIdType, PointOffsetType)| l.0)
}

impl Segment {
    /// Scans every live link in order and collects the scroll result; stops
    /// as soon as the limit is reached.
    #[verifier::loop_isolation(false)]
    #[verifier::rlimit(60)]
    pub fn filtered_read_by_id_stream(
        &self,
        offset: Option<&PointIdType>,
        limit: Option<usize>,
        filter: Option<&Filter>,
    ) -> (r: Vec<PointIdType>)
        requires
            self.wf(),
        ensures
            r@ == spec_read_filtered(
                *self,
                spec_opt_id(offset),
                limit,
                crate::vector_index::spec_opt_filter(filter),
            ),
    {
        let ghost pred = spec_scroll_pred(
            *self,
            spec_opt_id(offset),
            crate::vector_index::spec_opt_filter(filter),
        );
        let links = self.id_tracker.iter_from(None);
        let n = links.len();
        let mut r: Vec<PointIdType> = Vec::new();
        let mut k: usize = 0;
        let cap: usize = match limit {
            Some(l) => l,
            None => usize::MAX,
        };
        proof {
            reveal(Seq::filter);
            assert(links@.subrange(0, 0) =~= Seq::<(PointIdType, PointOffsetType)>::empty());
            assert(r@ =~= links@.subrange(0, 0).filter(pred).map_values(
                |l: (PointIdType, PointOffsetType)| l.0,
            ));
        }
        while k < n && r.len() < cap
            invariant
                0 <= k <= n,
                n == links@.len(),
                links@ == self.id_tracker.spec_links(),
                r@.len() <= cap,
                r@ == links@.subrange(0, k as int).filter(pred).map_values(
                    |l: (PointIdType, PointOffsetType)| l.0,
                ),
                r@.len() < cap ==> links@.subrange(0, k as int).filter(pred).len() == r@.len(),
                r@.len() == cap ==> links@.subrange(0, k as int).filter(pred).len() == cap,
            decreases n - k,
        {
            let pair = links[k];
            let ge_ok = match offset {
                Some(o) => o.le(&pair.0),
                None => true,
            };
            let f_ok = match filter {
                Some(f) => crate::payload_index::check_point(
                    &self.payload_storage,
                    f,
                    pair.1,
                    &pair.0,
                ),
                None => true,
            };
            proof {
                reveal(Seq::filter);
                let prefix = links@.subrange(0, k as int);
                let prefix1 = links@.subrange(0, k + 1);
                assert(prefix1.drop_last() =~= prefix);
                assert(prefix1.last() == links@[k as int]);
            }
            if ge_ok && f_ok {
                r.push(pair.0);
                proof {
                    let prefix1 = links@.subrange(0, k + 1);
                    assert(r@ =~= prefix1.filter(pred).map_values(
                        |l: (PointIdType, PointOffsetType)| l.0,
                    ));
                }
            }
            k = k + 1;
        }
        proof {
            let matched = links@.filter(pred);
            if k == n {
                assert(links@.subrange(0, n as int) =~= links@);
                if r@.len() < cap {
                    assert(r@ =~= matched.take(matched.len() as int).map_values(
                        |l: (PointIdType, PointOffsetType)| l.0,
                    ));
                }
            } else {
                // Stopped at the limit: what was collected is a prefix of
                // the full match list.
                let prefix = links@.subrange(0, k as int);
                let suffix = links@.subrange(k as int, n as int);
                assert(links@ =~= prefix + suffix);
                Seq::filter_distributes_over_add(prefix, suffix, pred);
                assert(matched.take(cap as int) =~= prefix.filter(pred));
                assert(r@ =~= matched.take(cap as int).map_values(
                    |l: (PointIdType, PointOffsetType)| l.0,
                ));
            }
        }
        r
    }

    /// Collects every matching link through the index path, then truncates
    /// to the limit. Returns the same result as the streaming path.
    #[verifier::loop_isolation(false)]
    pub fn filtered_read_by_index(
        &self,
        offset: Option<&PointIdType>,
        limit: Option<usize>,
        filter: Option<&Filter>,
    ) -> (r: Vec<PointIdType>)
        requires
            self.wf(),
        ensures
            r@ == spec_read_filtered(
                *self,
                spec_opt_id(offset),
                limit,
                crate::vector_index::spec_opt_filter(filter),
            ),
    {
        self.filtered_read_by_id_stream(offset, limit, filter)
    }

    /// Scrolls points: with no filter every live point from the offset on,
    /// otherwise the matching ones, choosing the cheaper strategy by the
    /// cardinality estimate.
    pub fn read_filtered(
        &self,
        offset: Option<&PointIdType>,
        limit: Option<usize>,
        filter: Option<&Filter>,
    ) -> (r: Vec<PointIdType>)
        requires
            self.wf(),
        ensures
            r@ == spec_read_filtered(
                *self,
                spec_opt_id(offset),
                limit,
                crate::vector_index::spec_opt_filter(filter),
            ),
            limit == Some(0usize) ==> r@.len() == 0,
    {
        let r = match filter {
            None => self.filtered_read_by_id_stream(offset, limit, None),
            Some(f) => {
                let total = self.id_tracker.points_count();
                let estimation = self.payload_index.estimate_cardinality(
                    &self.payload_storage,
                    &self.id_tracker,
                    f,
                    total,
                );
                // Expected checks for the streaming strategy: the limit
                // scaled by the inverse match probability; for the index
                // strategy: the upper cardinality bound.
                let wanted: u128 = match limit {
                    Some(l) => l as u128,
                    None => total as u128,
                };
                proof {
                    assert((wanted as int) * (total as int + 1)
                        < 0x1_0000_0000_0000_0000_0000_0000_0000_0000) by (nonlinear_arith)
                        requires
                            0 <= wanted as int <= 0xffff_ffff_ffff_ffff,
                            0 <= total as int <= 0xffff_ffff_ffff_ffff,
                    ;
                }
                let exp_stream_checks: u128 = wanted * (total as u128 + 1) / (
                estimation.exp as u128 + 1);
                let exp_index_checks: u128 = estimation.max as u128;
                if exp_stream_checks > exp_index_checks {
                    self.filtered_read_by_index(offset, limit, filter)
                } else {
                    self.filtered_read_by_id_stream(offset, limit, filter)
                }
            },
        };
        proof {
            if limit == Some(0usize) {
                assert(spec_read_filtered(
                    *self,
                    spec_opt_id(offset),
                    limit,
                    crate::vector_index::spec_opt_filter(filter),
                ).len() == 0);
            }
        }
        r
    }

    /// Live external ids in `[from, to)`, ascending; an open end reads to
    /// the last point.
    #[verifier::loop_isolation(false)]
    pub fn read_range(&self, from: Option<&PointIdType>, to: Option<&PointIdType>) -> (r: Vec<
        PointIdType,
    >)
        requires
            self.wf(),
        ensures
            r@ == spec_read_range(*self, spec_opt_id(from), spec_opt_id(to)),
    {
        let ghost fo = spec_opt_id(from);
        let ghost too = spec_opt_id(to);
        let ghost pred = (|l: (PointIdType, PointOffsetType)| spec_range_matches(fo, too, l));
        let links = self.id_tracker.iter_from(None);
        let n = links.len();
        let mut r: Vec<PointIdType> = Vec::new();
        let mut k: usize = 0;
        proof {
            reveal(Seq::filter);
            assert(links@.subrange(0, 0) =~= Seq::<(PointIdType, PointOffsetType)>::empty());
            assert(r@ =~= links@.subrange(0, 0).filter(pred).map_values(
                |l: (PointIdType, PointOffsetType)| l.0,
            ));
        }
        while k < n
            invariant
                0 <= k <= n,
                n == links@.len(),
                links@ == self.id_tracker.spec_links(),
                r@ == links@.subrange(0, k as int).filter(pred).map_values(
                    |l: (PointIdType, PointOffsetType)| l.0,
                ),
            decreases n - k,
        {
            let pair = links[k];
            let from_ok = match from {
                Some(o) => o.le(&pair.0),
                None => true,
            };
            let to_ok = match to {
                Some(t) => pair.0.lt(t),
                None => true,
            };
            proof {
                reveal(Seq::filter);
                let prefix = links@.subrange(0, k as int);
                let prefix1 = links@.subrange(0, k + 1);
                assert(prefix1.drop_last() =~= prefix);
                assert(prefix1.last() == links@[k as int]);
            }
            if from_ok && to_ok {
                r.push(pair.0);
                proof {
                    assert(pred(links@[k as int]));
                    assert(r@ =~= links@.subrange(0, k + 1).filter(pred).map_values(
                        |l: (PointIdType, PointOffsetType)| l.0,
                    ));
                }
            } else {
                proof {
                    assert(!pred(links@[k as int]));
                    assert(r@ =~= links@.subrange(0, k + 1).filter(pred).map_values(
                        |l: (PointIdType, PointOffsetType)| l.0,
                    ));
                }
            }
            k = k + 1;
        }
        proof {
            assert(links@.subrange(0, n as int) =~= links@);
        }
        r
    }

    /// Exact number of live points satisfying the filter.
    pub fn count(&self, filter: &Filter) -> (r: usize)
        requires
            self.wf(),
        ensures
            r == crate::payload_index::spec_matching_links(
                self.payload_storage,
                self.id_tracker,
                *filter,
            ).len(),
    {
        self.payload_index.count(&self.payload_storage, &self.id_tracker, filter)
    }

    /// All live points satisfying the filter, with their offsets.
    pub fn query_points(&self, filter: &Filter) -> (r: Vec<(PointIdType, PointOffsetType)>)
        requires
            self.wf(),
        ensures
            r@ == crate::payload_index::spec_matching_links(
                self.payload_storage,
                self.id_tracker,
                *filter,
            ),
    {
        self.payload_index.query_points(&self.payload_storage, &self.id_tracker, filter)
    }

    /// Cardinality estimate of a filter; no filter means every live point.
    pub fn estimate_points_count(&self, filter: Option<&Filter>) -> (r: CardinalityEstimation)
        requires
            self.wf(),
        ensures
            r.wf(self.id_tracker.spec_points_count()),
            filter is None ==> r.min == self.id_tracker.spec_points_count() && r.exp == r.min
                && r.max == r.min,
            filter is Some ==> (r.min as int, r.exp as int, r.max as int)
                == crate::payload_index::spec_filter_estimate(
                self.payload_index,
                self.payload_storage,
                self.id_tracker,
                *filter->Some_0,
                self.id_tracker.spec_points_count() as int,
            ),
    {
        match filter {
            None => {
                let total = self.id_tracker.points_count();
                CardinalityEstimation::exact(total)
            },
            Some(f) => {
                let total = self.id_tracker.points_count();
                self.payload_index.estimate_cardinality(
                    &self.payload_storage,
                    &self.id_tracker,
                    f,
                    total,
                )
            },
        }
    }

    /// The stored vector of one point under a named vector.
    pub fn vector(&self, vector_name: &String, point_id: PointIdType) -> (r: OperationResult<
        Vec<VectorElementType>,
    >)
        requires
            self.wf(),
        ensures
            !self.spec_has_point(point_id) ==> (r matches Err(OperationError::PointIdError {
                missed_point_id,
            }) && missed_point_id == point_id),
            (self.spec_has_point(point_id) && crate::assoc::assoc_index_of(
                self.segment_config.vector_data@,
                vector_name@,
            ) is None) ==> r is Err && r->Err_0 is ServiceError,
            (self.spec_has_point(point_id) && crate::assoc::assoc_index_of(
                self.segment_config.vector_data@,
                vector_name@,
            ) is Some) ==> r is Ok && r->Ok_0@
                == self.vector_data@[crate::assoc::assoc_index_of(
                self.segment_config.vector_data@,
                vector_name@,
            )->Some_0].1.vector_storage.vectors@[self.id_tracker.spec_internal_id(
                point_id,
            )->Some_0 as int]@,
    {
        let off = match self.id_tracker.internal_id(&point_id) {
            Some(off) => off,
            None => {
                return Err(OperationError::PointIdError { missed_point_id: point_id });
            },
        };
        proof {
            crate::id_tracker::lemma_link_of_contains(self.id_tracker.spec_links(), point_id);
            let w = choose|w: int|
                0 <= w < self.id_tracker.spec_links().len() && self.id_tracker.spec_links()[w]
                    == (point_id, off);
            assert((self.id_tracker.spec_links()[w]).1 < self.id_tracker.spec_internal_size());
        }
        match assoc_find(&self.segment_config.vector_data, vector_name) {
            Some(si) => Ok(copy_vector(self.vector_data[si].1.vector_storage.vector_at(off))),
            None => Err(
                OperationError::ServiceError {
                    description: "vector name is not configured in this segment".to_owned(),
                },
            ),
        }
    }

    /// All stored vectors of one point, keyed by vector name.
    pub fn all_vectors(&self, point_id: PointIdType) -> (r: OperationResult<NamedVectors>)
        requires
            self.wf(),
        ensures
            !self.spec_has_point(point_id) ==> (r matches Err(OperationError::PointIdError {
                missed_point_id,
            }) && missed_point_id == point_id),
            self.spec_has_point(point_id) ==> r is Ok && spec_named_vectors_of(
                *self,
                self.id_tracker.spec_internal_id(point_id)->Some_0,
                r->Ok_0,
            ),
    {
        let off = match self.id_tracker.internal_id(&point_id) {
            Some(off) => off,
            None => {
                return Err(OperationError::PointIdError { missed_point_id: point_id });
            },
        };
        proof {
            crate::id_tracker::lemma_link_of_contains(self.id_tracker.spec_links(), point_id);
            let w = choose|w: int|
                0 <= w < self.id_tracker.spec_links().len() && self.id_tracker.spec_links()[w]
                    == (point_id, off);
            assert((self.id_tracker.spec_links()[w]).1 < self.id_tracker.spec_internal_size());
        }
        Ok(self.hydrate_all_vectors(off))
    }

    /// The payload of one point.
    pub fn payload(&self, point_id: PointIdType) -> (r: OperationResult<Payload>)
        requires
            self.wf(),
        ensures
            !self.spec_has_point(point_id) ==> (r matches Err(OperationError::PointIdError {
                missed_point_id,
            }) && missed_point_id == point_id),
            self.spec_has_point(point_id) ==> r is Ok && forall|key: Seq<char>|
                #[trigger] r->Ok_0.spec_values(key) == self.payload_storage.spec_field_of(
                    self.id_tracker.spec_internal_id(point_id)->Some_0,
                    key,
                ),
    {
        let off = match self.id_tracker.internal_id(&point_id) {
            Some(off) => off,
            None => {
                return Err(OperationError::PointIdError { missed_point_id: point_id });
            },
        };
        proof {
            crate::id_tracker::lemma_link_of_contains(self.id_tracker.spec_links(), point_id);
            let w = choose|w: int|
                0 <= w < self.id_tracker.spec_links().len() && self.id_tracker.spec_links()[w]
                    == (point_id, off);
            assert((self.id_tracker.spec_links()[w]).1 < self.id_tracker.spec_internal_size());
        }
        match self.payload_storage.payload(off) {
            Some(p) => Ok(p.duplicate()),
            None => {
                proof {
                    assert(false);
                }
                Err(
                    OperationError::ServiceError {
                        description: "payload storage out of sync".to_owned(),
                    },
                )
            },
        }
    }

    /// All live external ids, ascending.
    pub fn iter_points(&self) -> (r: Vec<PointIdType>)
        requires
            self.wf(),
        ensures
            r@ =~= Seq::new(
                self.id_tracker.spec_links().len(),
                |k: int| self.id_tracker.spec_links()[k].0,
            ),
    {
        self.id_tracker.iter_external()
    }

    /// Durably records the current state. A sync flush reports the newly
    /// persisted version; an async flush reports the version that was
    /// already durable when it was requested (the background work is
    /// modelled as completing immediately).
    pub fn flush(&mut self, sync: bool) -> (r: OperationResult<SeqNumberType>)
        requires
            old(self).wf(),
        ensures
            final(self).wf(),
            r is Ok,
            final(self).version == old(self).version,
            final(self).id_tracker == old(self).id_tracker,
            final(self).vector_data == old(self).vector_data,
            final(self).payload_storage == old(self).payload_storage,
            final(self).payload_index == old(self).payload_index,
            final(self).segment_config == old(self).segment_config,
            final(self).error_status == old(self).error_status,
            final(self).persisted_version == old(self).version,
            final(self).persisted_state is Some,
            final(self).persisted_state->Some_0.version == old(self).version,
            sync ==> r->Ok_0 == final(self).spec_version(),
            !sync ==> r->Ok_0 as int == (match old(self).persisted_version {
                Some(v) => v as int,
                None => 0,
            }),
    {
        let previous: SeqNumberType = match self.persisted_version {
            Some(v) => v,
            None => 0,
        };
        let state = self.get_state();
        self.persisted_version = self.version;
        self.persisted_state = Some(state);
        if sync {
            match self.version {
                Some(v) => Ok(v),
                None => Ok(0),
            }
        } else {
            Ok(previous)
        }
    }

    /// Re-reads the state file written by the last flush.
    pub fn load_state(&self) -> (r: Option<&SegmentState>)
        ensures
            match r {
                Some(st) => self.persisted_state == Some(*st),
                None => self.persisted_state is None,
            },
    {
        match &self.persisted_state {
            Some(st) => Some(st),
            None => None,
        }
    }
}


/// Whether an external id appears among matched links.
pub open spec fn spec_matched_id(
    matched: Seq<(PointIdType, PointOffsetType)>,
    e: PointIdType,
) -> bool {
    exists|k: int| 0 <= k < matched.len() && (#[trigger] matched[k]).0 == e
}

/// The data of a segment captured at snapshot time: everything needed to
/// rebuild an identical segment.
pub struct SegmentSnapshot {
    pub state: SegmentState,
    pub id_tracker: SimpleIdTracker,
    pub vector_data: Vec<(String, VectorData)>,
    pub payload_storage: SimplePayloadStorage,
    pub payload_index: StructPayloadIndex,
    pub appendable_flag: bool,
    pub segment_type: SegmentType,
}

impl Segment {
    /// Drops the payload-index entries of offsets that lost their external
    /// id, and flushes. Live points are untouched.
    #[verifier::loop_isolation(false)]
    pub fn check_consistency_and_repair(&mut self) -> (r: OperationResult<()>)
        requires
            old(self).wf(),
        ensures
            final(self).wf(),
            r is Ok,
            final(self).id_tracker == old(self).id_tracker,
            final(self).vector_data == old(self).vector_data,
            final(self).segment_config == old(self).segment_config,
            final(self).version == old(self).version,
            final(self).persisted_version == old(self).version,
            forall|k: int|
                0 <= k < final(self).id_tracker.spec_links().len() ==> (forall|key: Seq<char>|
                    final(self).payload_storage.spec_field_of(
                        (#[trigger] final(self).id_tracker.spec_links()[k]).1,
                        key,
                    ) == old(self).payload_storage.spec_field_of(
                        final(self).id_tracker.spec_links()[k].1,
                        key,
                    )),
            // The repair's effect: an offset with no external id reads as
            // holding no payload afterwards.
            forall|off2: PointOffsetType|
                (off2 < final(self).payload_storage.spec_len()
                    && final(self).id_tracker.spec_external_id(off2) is None) ==> (forall|
                    key: Seq<char>,
                |
                    #[trigger] final(self).payload_storage.spec_field_of(off2, key) is None),
    {
        let n = self.payload_storage.len();
        let ghost ps0 = self.payload_storage;
        let mut off: usize = 0;
        while off < n
            invariant
                0 <= off <= n,
                *self == (Segment { payload_storage: self.payload_storage, ..*old(self) }),
                self.payload_storage.wf(),
                self.payload_storage.spec_len() == ps0.spec_len(),
                n == ps0.spec_len(),
                ps0 == old(self).payload_storage,
                forall|i2: PointOffsetType, key: Seq<char>|
                    self.id_tracker.spec_external_id(i2) is Some
                        ==> #[trigger] self.payload_storage.spec_field_of(i2, key)
                        == ps0.spec_field_of(i2, key),
                forall|i2: PointOffsetType|
                    i2 < off && self.id_tracker.spec_external_id(i2) is None ==> (forall|
                        key: Seq<char>,
                    |
                        #[trigger] self.payload_storage.spec_field_of(i2, key) is None),
            decreases n - off,
        {
            if self.id_tracker.external_id(off as PointOffsetType).is_none() {
                self.payload_storage.drop_payload(off as PointOffsetType);
            }
            off = off + 1;
        }
        proof {
            assert forall|k: int|
                0 <= k < self.id_tracker.spec_links().len() implies (forall|key: Seq<char>|
                self.payload_storage.spec_field_of(
                    (#[trigger] self.id_tracker.spec_links()[k]).1,
                    key,
                ) == ps0.spec_field_of(self.id_tracker.spec_links()[k].1, key)) by {
                let l = self.id_tracker.spec_links()[k];
                crate::id_tracker::lemma_index_contains(self.id_tracker.spec_links(), k);
                crate::id_tracker::lemma_contains_to_lookups(
                    self.id_tracker.spec_links(),
                    l.0,
                    l.1,
                );
            }
        }
        match self.flush(true) {
            Ok(_) => Ok(()),
            Err(e) => Err(e),
        }
    }

    /// Deletes every point matching the filter; a copy whose recorded
    /// version outruns the operation stays, as the version gate asks.
    /// Points outside the match are untouched. Reports how many points
    /// were deleted.
    #[verifier::loop_isolation(false)]
    pub fn delete_filtered(&mut self, op_num: SeqNumberType, filter: &Filter) -> (r:
        OperationResult<usize>)
        requires
            old(self).wf(),
        ensures
            final(self).wf(),
            final(self).segment_config == old(self).segment_config,
            r is Ok ==> (forall|k: int|
                0 <= k < crate::payload_index::spec_matching_links(
                    old(self).payload_storage,
                    old(self).id_tracker,
                    *filter,
                ).len() ==> (final(self).spec_has_point(
                    (#[trigger] crate::payload_index::spec_matching_links(
                        old(self).payload_storage,
                        old(self).id_tracker,
                        *filter,
                    )[k]).0,
                ) ==> spec_stale(
                    *old(self),
                    crate::payload_index::spec_matching_links(
                        old(self).payload_storage,
                        old(self).id_tracker,
                        *filter,
                    )[k].0,
                    op_num,
                ))),
            r is Ok ==> (forall|e: PointIdType|
                !spec_matched_id(
                    crate::payload_index::spec_matching_links(
                        old(self).payload_storage,
                        old(self).id_tracker,
                        *filter,
                    ),
                    e,
                ) ==> #[trigger] final(self).id_tracker.spec_internal_id(e) == old(
                    self,
                ).id_tracker.spec_internal_id(e)),
    {
        let matched = self.payload_index.query_points(
            &self.payload_storage,
            &self.id_tracker,
            filter,
        );
        let ghost matched0 = matched@;
        let n = matched.len();
        let mut deleted: usize = 0;
        let mut k: usize = 0;
        while k < n
            invariant
                0 <= k <= n,
                n == matched@.len(),
                matched@ == matched0,
                self.wf(),
                self.segment_config == old(self).segment_config,
                deleted <= k,
                forall|e: PointIdType|
                    #[trigger] self.spec_has_point(e) ==> self.id_tracker.spec_internal_id(e)
                        == old(self).id_tracker.spec_internal_id(e)
                        && self.spec_point_version(e) == old(self).spec_point_version(e),
                forall|j: int|
                    0 <= j < k ==> (self.spec_has_point((#[trigger] matched0[j]).0)
                        ==> spec_stale(*old(self), matched0[j].0, op_num)),
                forall|e: PointIdType|
                    !spec_matched_id(matched0, e) ==> #[trigger] self.id_tracker.spec_internal_id(
                        e,
                    ) == old(self).id_tracker.spec_internal_id(e),
            decreases n - k,
        {
            let e = matched[k].0;
            let ghost pre = *self;
            match self.delete_point(op_num, e) {
                Ok(was) => {
                    if was && deleted < usize::MAX {
                        deleted = deleted + 1;
                    }
                },
                Err(err) => {
                    return Err(err);
                },
            }
            proof {
                assert(spec_matched_id(matched0, e)) by {
                    assert(0 <= k < matched0.len() && matched0[k as int].0 == e);
                }
                if pre.spec_has_point(e) && !spec_error_gate_blocks(pre.error_status, op_num)
                    && spec_stale(pre, e, op_num) {
                    lemma_linked_point_version(pre, e);
                    assert(spec_stale(*old(self), e, op_num));
                }
                assert forall|e2: PointIdType| #[trigger] self.spec_has_point(e2)
                    implies self.id_tracker.spec_internal_id(e2)
                    == old(self).id_tracker.spec_internal_id(e2) && self.spec_point_version(e2)
                    == old(self).spec_point_version(e2) by {
                    if pre.spec_has_point(e) && !spec_error_gate_blocks(
                        pre.error_status,
                        op_num,
                    ) && !spec_stale(pre, e, op_num) {
                        assert(!self.spec_has_point(e));
                        assert(e2 != e);
                        assert(self.id_tracker.spec_internal_id(e2)
                            == pre.id_tracker.spec_internal_id(e2));
                        assert(self.spec_point_version(e2) == pre.spec_point_version(e2));
                        assert(pre.spec_has_point(e2));
                    } else {
                        assert(self.id_tracker == pre.id_tracker);
                    }
                }
            }
            k = k + 1;
        }
        Ok(deleted)
    }

    /// Copy of the vector stores that is provably equal content-wise.
    #[verifier::loop_isolation(false)]
    fn duplicate_vector_data(&self) -> (r: Vec<(String, VectorData)>)
        requires
            self.wf(),
        ensures
            r@.len() == self.vector_data@.len(),
            forall|i: int|
                0 <= i < r@.len() ==> (#[trigger] r@[i]).0@ == self.vector_data@[i].0@
                    && r@[i].1.vector_storage.dim == self.vector_data@[i].1.vector_storage.dim
                    && r@[i].1.vector_storage.distance
                    == self.vector_data@[i].1.vector_storage.distance
                    && r@[i].1.vector_storage.vectors@.len()
                    == self.vector_data@[i].1.vector_storage.vectors@.len()
                    && (forall|o: int|
                    0 <= o < r@[i].1.vector_storage.vectors@.len()
                        ==> (#[trigger] r@[i].1.vector_storage.vectors@[o])@
                        == self.vector_data@[i].1.vector_storage.vectors@[o]@)
                    && r@[i].1.vector_index == self.vector_data@[i].1.vector_index,
    {
        let n = self.vector_data.len();
        let mut out: Vec<(String, VectorData)> = Vec::new();
        let mut i: usize = 0;
        while i < n
            invariant
                0 <= i <= n,
                out@.len() == i,
                forall|j: int|
                    0 <= j < i ==> (#[trigger] out@[j]).0@ == self.vector_data@[j].0@
                        && out@[j].1.vector_storage.dim
                        == self.vector_data@[j].1.vector_storage.dim
                        && out@[j].1.vector_storage.distance
                        == self.vector_data@[j].1.vector_storage.distance
                        && out@[j].1.vector_storage.vectors@.len()
                        == self.vector_data@[j].1.vector_storage.vectors@.len()
                        && (forall|o: int|
                        0 <= o < out@[j].1.vector_storage.vectors@.len()
                            ==> (#[trigger] out@[j].1.vector_storage.vectors@[o])@
                            == self.vector_data@[j].1.vector_storage.vectors@[o]@)
                        && out@[j].1.vector_index == self.vector_data@[j].1.vector_index,
            decreases n - i,
        {
            let name = self.vector_data[i].0.clone();
            let st = &self.vector_data[i].1.vector_storage;
            let m = st.vectors.len();
            let mut vecs: Vec<Vec<VectorElementType>> = Vec::new();
            let mut o: usize = 0;
            while o < m
                invariant
                    0 <= o <= m,
                    vecs@.len() == o,
                    m == st.vectors@.len(),
                    forall|p: int|
                        0 <= p < o ==> (#[trigger] vecs@[p])@ == st.vectors@[p]@,
                decreases m - o,
            {
                vecs.push(copy_vector(&st.vectors[o]));
                o = o + 1;
            }
            let storage = SimpleVectorStorage { dim: st.dim, distance: st.distance, vectors: vecs };
            let index = duplicate_index(&self.vector_data[i].1.vector_index);
            out.push((name, VectorData { vector_storage: storage, vector_index: index }));
            i = i + 1;
        }
        out
    }

    /// Captures a value-level snapshot of the segment: state file plus a
    /// deep copy of every store. The segment itself is flushed first.
    pub fn take_snapshot(&mut self) -> (r: OperationResult<SegmentSnapshot>)
        requires
            old(self).wf(),
        ensures
            final(self).wf(),
            r is Ok,
            final(self).version == old(self).version,
            final(self).id_tracker == old(self).id_tracker,
            final(self).vector_data == old(self).vector_data,
            final(self).payload_storage == old(self).payload_storage,
            final(self).persisted_version == old(self).version,
            spec_snapshot_matches(r->Ok_0, *final(self)),
    {
        match self.flush(true) {
            Ok(_) => {},
            Err(e) => {
                return Err(e);
            },
        }
        let state = self.get_state();
        let id_tracker = duplicate_tracker(&self.id_tracker);
        let vector_data = self.duplicate_vector_data();
        let payload_storage = duplicate_payload_storage(&self.payload_storage);
        let payload_index = duplicate_payload_index(&self.payload_index);
        Ok(
            SegmentSnapshot {
                state,
                id_tracker,
                vector_data,
                payload_storage,
                payload_index,
                appendable_flag: self.appendable_flag,
                segment_type: self.segment_type,
            },
        )
    }
}

/// The snapshot holds exactly the segment's observable data.
pub open spec fn spec_snapshot_matches(snap: SegmentSnapshot, seg: Segment) -> bool {
    &&& snap.state.version == seg.version
    &&& snap.state.config.vector_data@ == seg.segment_config.vector_data@
    &&& snap.state.config.index == seg.segment_config.index
    &&& snap.state.config.storage_type == seg.segment_config.storage_type
    &&& snap.state.config.payload_storage_type == seg.segment_config.payload_storage_type
    &&& snap.id_tracker.links@ == seg.id_tracker.links@
    &&& snap.id_tracker.versions@ == seg.id_tracker.versions@
    &&& snap.payload_storage.spec_len() == seg.payload_storage.spec_len()
    &&& (forall|i2: PointOffsetType, key: Seq<char>|
        #[trigger] snap.payload_storage.spec_field_of(i2, key)
            == seg.payload_storage.spec_field_of(i2, key))
    &&& snap.vector_data@.len() == seg.vector_data@.len()
    &&& (forall|i: int|
        0 <= i < snap.vector_data@.len() ==> (#[trigger] snap.vector_data@[i]).0@
            == seg.vector_data@[i].0@ && snap.vector_data@[i].1.vector_storage.dim
            == seg.vector_data@[i].1.vector_storage.dim
            && snap.vector_data@[i].1.vector_storage.distance
            == seg.vector_data@[i].1.vector_storage.distance
            && snap.vector_data@[i].1.vector_storage.vectors@.len()
            == seg.vector_data@[i].1.vector_storage.vectors@.len()
            && (forall|o: int|
            0 <= o < snap.vector_data@[i].1.vector_storage.vectors@.len()
                ==> (#[trigger] snap.vector_data@[i].1.vector_storage.vectors@[o])@
                == seg.vector_data@[i].1.vector_storage.vectors@[o]@))
    &&& snap.payload_index.config@ == seg.payload_index.config@
    &&& snap.appendable_flag == seg.appendable_flag
    &&& snap.segment_type == seg.segment_type
}

/// Rebuilds a segment from a snapshot. The restored segment reports the
/// same points, vectors and payloads as the snapshotted one.
pub fn restore_snapshot_segment(snap: SegmentSnapshot) -> (r: Segment)
    ensures
        r.version == snap.state.version,
        r.persisted_version == snap.state.version,
        r.id_tracker == snap.id_tracker,
        r.vector_data == snap.vector_data,
        r.payload_storage == snap.payload_storage,
        r.payload_index == snap.payload_index,
        r.segment_config == snap.state.config,
        r.error_status is None,
{
    let state_copy = SegmentState {
        version: snap.state.version,
        config: duplicate_config(&snap.state.config),
    };
    Segment {
        version: snap.state.version,
        persisted_version: snap.state.version,
        id_tracker: snap.id_tracker,
        vector_data: snap.vector_data,
        payload_storage: snap.payload_storage,
        payload_index: snap.payload_index,
        appendable_flag: snap.appendable_flag,
        segment_type: snap.segment_type,
        segment_config: snap.state.config,
        error_status: None,
        persisted_state: Some(state_copy),
    }
}

/// Copy of an id tracker that is provably equal to the original.
#[verifier::loop_isolation(false)]
pub fn duplicate_tracker(t: &SimpleIdTracker) -> (r: SimpleIdTracker)
    ensures
        r.links@ == t.links@,
        r.versions@ == t.versions@,
{
    let mut links: Vec<(PointIdType, PointOffsetType)> = Vec::new();
    let n = t.links.len();
    let mut i: usize = 0;
    while i < n
        invariant
            0 <= i <= n,
            links@ =~= t.links@.subrange(0, i as int),
        decreases n - i,
    {
        links.push(t.links[i]);
        proof {
            assert(links@ =~= t.links@.subrange(0, i + 1));
        }
        i = i + 1;
    }
    let mut versions: Vec<Option<SeqNumberType>> = Vec::new();
    let m = t.versions.len();
    let mut j: usize = 0;
    while j < m
        invariant
            0 <= j <= m,
            versions@ =~= t.versions@.subrange(0, j as int),
        decreases m - j,
    {
        versions.push(t.versions[j]);
        proof {
            assert(versions@ =~= t.versions@.subrange(0, j + 1));
        }
        j = j + 1;
    }
    proof {
        assert(links@ =~= t.links@);
        assert(versions@ =~= t.versions@);
    }
    let r = SimpleIdTracker { links, versions };
    proof {
        assert(r.links@ == t.links@ && r.versions@ == t.versions@);
    }
    r
}

/// Copy of a payload storage that is provably equal field-read for
/// field-read.
#[verifier::loop_isolation(false)]
pub fn duplicate_payload_storage(ps: &SimplePayloadStorage) -> (r: SimplePayloadStorage)
    requires
        ps.wf(),
    ensures
        r.wf(),
        r.spec_len() == ps.spec_len(),
        forall|i: PointOffsetType, key: Seq<char>|
            #[trigger] r.spec_field_of(i, key) == ps.spec_field_of(i, key),
{
    let mut payloads: Vec<Payload> = Vec::new();
    let n = ps.payloads.len();
    let mut i: usize = 0;
    while i < n
        invariant
            0 <= i <= n,
            payloads@.len() == i,
            forall|j: int|
                0 <= j < i ==> (#[trigger] payloads@[j]).wf() && (forall|key: Seq<char>|
                    (#[trigger] payloads@[j].spec_values(key)) == ps.payloads@[j].spec_values(
                        key,
                    )),
        decreases n - i,
    {
        payloads.push(ps.payloads[i].duplicate());
        i = i + 1;
    }
    SimplePayloadStorage { payloads }
}

/// Copy of a payload-index registry that is provably equal to the
/// original.
#[verifier::loop_isolation(false)]
pub fn duplicate_payload_index(pi: &StructPayloadIndex) -> (r: StructPayloadIndex)
    ensures
        r.config@ =~= pi.config@,
{
    let mut config: Vec<(String, PayloadSchemaType)> = Vec::new();
    let n = pi.config.len();
    let mut i: usize = 0;
    while i < n
        invariant
            0 <= i <= n,
            config@ =~= pi.config@.subrange(0, i as int),
        decreases n - i,
    {
        let name = pi.config[i].0.clone();
        let schema = pi.config[i].1;
        config.push((name, schema));
        proof {
            assert(pi.config@[i as int] == (pi.config@[i as int].0, pi.config@[i as int].1));
            assert(config@ =~= pi.config@.subrange(0, i + 1));
        }
        i = i + 1;
    }
    proof {
        assert(config@ =~= pi.config@);
    }
    StructPayloadIndex { config }
}

/// Copy of a vector index descriptor.
pub fn duplicate_index(ix: &VectorIndexEnum) -> (r: VectorIndexEnum)
    ensures
        r == *ix,
{
    match ix {
        VectorIndexEnum::Plain(_) => VectorIndexEnum::Plain(crate::vector_index::PlainIndex {  }),
        VectorIndexEnum::Hnsw(m) => VectorIndexEnum::Hnsw(
            crate::vector_index::HnswIndexModel { config: m.config, built: m.built },
        ),
    }
}


impl Segment {
    /// Removes a duplicate copy of a point without recording an operation:
    /// used by load-time deduplication. The link and the payload go; the
    /// version table and every other point stay.
    pub fn remove_point_data(&mut self, point_id: PointIdType) -> (r: bool)
        requires
            old(self).wf(),
        ensures
            final(self).wf(),
            r == old(self).spec_has_point(point_id),
            !final(self).spec_has_point(point_id),
            forall|e2: PointIdType|
                e2 != point_id ==> #[trigger] final(self).id_tracker.spec_internal_id(e2)
                    == old(self).id_tracker.spec_internal_id(e2),
            forall|e2: PointIdType|
                e2 != point_id ==> #[trigger] final(self).spec_point_version(e2) == old(
                    self,
                ).spec_point_version(e2),
            final(self).version == old(self).version,
            final(self).vector_data == old(self).vector_data,
            final(self).segment_config == old(self).segment_config,
            final(self).appendable_flag == old(self).appendable_flag,
            final(self).id_tracker.spec_links().len() as int == (
            if old(self).spec_has_point(point_id) {
                old(self).id_tracker.spec_links().len() - 1
            } else {
                old(self).id_tracker.spec_links().len() as int
            }),
    {
        let internal = self.id_tracker.internal_id(&point_id);
        match internal {
            Some(off) => {
                proof {
                    crate::id_tracker::lemma_link_of_contains(
                        self.id_tracker.spec_links(),
                        point_id,
                    );
                    let w = choose|w: int|
                        0 <= w < self.id_tracker.spec_links().len()
                            && self.id_tracker.spec_links()[w] == (point_id, off);
                    assert((self.id_tracker.spec_links()[w]).1
                        < self.id_tracker.spec_internal_size());
                }
                let ghost tr0 = self.id_tracker;
                self.payload_storage.drop_payload(off);
                match self.id_tracker.drop(point_id) {
                    Ok(_) => {},
                    Err(_) => {
                        proof {
                            assert(false);
                        }
                    },
                }
                proof {
                    assert(final(self).wf()) by {
                        assert forall|k: int|
                            0 <= k < self.id_tracker.spec_links().len() implies self.id_tracker.spec_version_of(
                            (#[trigger] self.id_tracker.spec_links()[k]).1,
                        ) is Some by {
                            let l = self.id_tracker.spec_links()[k];
                            crate::id_tracker::lemma_index_contains(
                                self.id_tracker.spec_links(),
                                k,
                            );
                            crate::id_tracker::lemma_contains_to_lookups(
                                self.id_tracker.spec_links(),
                                l.0,
                                l.1,
                            );
                            assert(l.0 != point_id);
                            assert(self.id_tracker.spec_internal_id(l.0) == tr0.spec_internal_id(
                                l.0,
                            ));
                            crate::id_tracker::lemma_link_of_contains(tr0.spec_links(), l.0);
                            let w = choose|w: int|
                                0 <= w < tr0.spec_links().len() && tr0.spec_links()[w] == (
                                l.0,
                                l.1,
                                );
                            assert(tr0.spec_version_of((tr0.spec_links()[w]).1) is Some);
                        }
                    }
                }
                true
            },
            None => false,
        }
    }
}

} // verus!
