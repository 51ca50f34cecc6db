//! The general laws of the library, each proved from the contracts the
//! operations state.

use vstd::prelude::*;
use crate::types::{PointIdType, PointOffsetType, SeqNumberType};
use crate::segment::{
    Segment, NamedVectors, SegmentSnapshot, spec_vectors_valid, spec_max_u64, spec_as_i64,
    spec_preprocess, spec_snapshot_matches, spec_read_filtered,
};
use crate::payload_storage::SimplePayloadStorage;
use crate::id_tracker::SimpleIdTracker;
use crate::payload::Filter;
use crate::payload_index::{spec_matching_links, spec_link_matches, lemma_matching_links_spec};
use crate::assoc::assoc_get;

verus! {

/// The relation a successful, applied upsert leaves between the old and
/// the new segment, exactly as `upsert_vector` ensures it.
pub open spec fn spec_upsert_applied(
    pre: Segment,
    post: Segment,
    op_num: SeqNumberType,
    point_id: PointIdType,
    vectors: NamedVectors,
) -> bool {
    let off = post.id_tracker.spec_internal_id(point_id)->Some_0;
    &&& post.segment_config == pre.segment_config
    &&& post.spec_has_point(point_id)
    &&& post.spec_point_version(point_id) == Some(op_num)
    &&& post.version == Some(spec_max_u64(pre.spec_version(), op_num))
    &&& (forall|i: int|
        0 <= i < post.segment_config.vector_data@.len() ==> #[trigger] post.spec_stored_vector(
            i,
            off,
        ) == Some(
            spec_as_i64(
                spec_preprocess(
                    post.segment_config.vector_data@[i].1.distance,
                    assoc_get(vectors.pairs@, post.segment_config.vector_data@[i].0@)->Some_0@,
                ),
            ),
        ))
    &&& (forall|e2: PointIdType|
        e2 != point_id ==> #[trigger] post.id_tracker.spec_internal_id(e2)
            == pre.id_tracker.spec_internal_id(e2))
    &&& (forall|i: int, off2: PointOffsetType|
        0 <= i < post.vector_data@.len() && off2 != off ==> #[trigger] post.spec_stored_vector(
            i,
            off2,
        ) == pre.spec_stored_vector(i, off2))
    &&& (forall|off2: PointOffsetType, key: Seq<char>|
        post.payload_storage.spec_field_of(off2, key) == pre.payload_storage.spec_field_of(
            off2,
            key,
        ))
    &&& (pre.spec_has_point(point_id) ==> off == pre.id_tracker.spec_internal_id(
        point_id,
    )->Some_0)
    &&& post.vector_data@.len() == post.segment_config.vector_data@.len()
    &&& pre.vector_data@.len() == pre.segment_config.vector_data@.len()
}

/// Upserting the same point with the same operation number and the same
/// vectors twice leaves every observation of the segment as after the
/// first upsert: the second application changes nothing a reader can see.
pub proof fn lemma_upsert_idempotent(
    s0: Segment,
    s1: Segment,
    s2: Segment,
    op_num: SeqNumberType,
    point_id: PointIdType,
    vectors: NamedVectors,
)
    requires
        spec_upsert_applied(s0, s1, op_num, point_id, vectors),
        spec_upsert_applied(s1, s2, op_num, point_id, vectors),
    ensures
        s2.version == s1.version,
        forall|e: PointIdType|
            #[trigger] s2.id_tracker.spec_internal_id(e) == s1.id_tracker.spec_internal_id(e),
        s2.spec_point_version(point_id) == s1.spec_point_version(point_id),
        forall|i: int, off2: PointOffsetType|
            0 <= i < s2.vector_data@.len() ==> #[trigger] s2.spec_stored_vector(i, off2)
                == s1.spec_stored_vector(i, off2),
        forall|off2: PointOffsetType, key: Seq<char>|
            s2.payload_storage.spec_field_of(off2, key) == s1.payload_storage.spec_field_of(
                off2,
                key,
            ),
{
    let off1 = s1.id_tracker.spec_internal_id(point_id)->Some_0;
    let off2v = s2.id_tracker.spec_internal_id(point_id)->Some_0;
    assert(off2v == off1);
    assert(s2.version == s1.version) by {
        assert(s1.version == Some(spec_max_u64(s0.spec_version(), op_num)));
        assert(s1.spec_version() >= op_num);
        assert(s2.version == Some(spec_max_u64(s1.spec_version(), op_num)));
    }
    assert forall|e: PointIdType| #[trigger] s2.id_tracker.spec_internal_id(e)
        == s1.id_tracker.spec_internal_id(e) by {
        if e != point_id {
        } else {
            assert(s2.id_tracker.spec_internal_id(point_id) is Some);
            assert(s1.id_tracker.spec_internal_id(point_id) is Some);
        }
    }
    assert forall|i: int, o: PointOffsetType|
        0 <= i < s2.vector_data@.len() implies #[trigger] s2.spec_stored_vector(i, o)
        == s1.spec_stored_vector(i, o) by {
        if o == off1 {
            assert(s2.segment_config == s1.segment_config);
            assert(s2.spec_stored_vector(i, off2v) == Some(
                spec_as_i64(
                    spec_preprocess(
                        s2.segment_config.vector_data@[i].1.distance,
                        assoc_get(
                            vectors.pairs@,
                            s2.segment_config.vector_data@[i].0@,
                        )->Some_0@,
                    ),
                ),
            ));
            assert(s1.spec_stored_vector(i, off1) == Some(
                spec_as_i64(
                    spec_preprocess(
                        s1.segment_config.vector_data@[i].1.distance,
                        assoc_get(
                            vectors.pairs@,
                            s1.segment_config.vector_data@[i].0@,
                        )->Some_0@,
                    ),
                ),
            ));
        }
    }
}

/// Every point the planner returns satisfies the filter, every live point
/// satisfying the filter is returned, and the planner's count is exactly
/// the number of returned points.
pub proof fn lemma_query_points_exact(
    ps: SimplePayloadStorage,
    tracker: SimpleIdTracker,
    f: Filter,
)
    ensures
        forall|k: int|
            0 <= k < spec_matching_links(ps, tracker, f).len() ==> spec_link_matches(
                ps,
                f,
                #[trigger] spec_matching_links(ps, tracker, f)[k],
            ) && tracker.spec_links().contains(spec_matching_links(ps, tracker, f)[k]),
        forall|k: int|
            0 <= k < tracker.spec_links().len() && spec_link_matches(
                ps,
                f,
                #[trigger] tracker.spec_links()[k],
            ) ==> spec_matching_links(ps, tracker, f).contains(tracker.spec_links()[k]),
{
    lemma_matching_links_spec(ps, tracker, f);
}

/// After a sync flush the persisted version equals the live version, and
/// the state the segment would reload carries exactly that version.
pub proof fn lemma_flush_durable(pre: Segment, post: Segment)
    requires
        post.version == pre.version,
        post.persisted_version == pre.version,
        post.persisted_state is Some,
        post.persisted_state->Some_0.version == pre.version,
    ensures
        post.persisted_version == post.version,
        post.persisted_state->Some_0.version == post.persisted_version,
{
}

/// A restored snapshot reports the same points, the same per-point
/// versions, the same vectors and the same payload fields as the segment
/// it was taken from.
pub proof fn lemma_snapshot_round_trip(seg: Segment, snap: SegmentSnapshot, restored: Segment)
    requires
        spec_snapshot_matches(snap, seg),
        restored.id_tracker == snap.id_tracker,
        restored.vector_data == snap.vector_data,
        restored.payload_storage == snap.payload_storage,
        restored.version == snap.state.version,
    ensures
        restored.id_tracker.spec_links() == seg.id_tracker.spec_links(),
        forall|e: PointIdType|
            #[trigger] restored.spec_point_version(e) == seg.spec_point_version(e),
        forall|off: PointOffsetType, key: Seq<char>|
            restored.payload_storage.spec_field_of(off, key)
                == seg.payload_storage.spec_field_of(off, key),
        forall|i: int, off: PointOffsetType|
            0 <= i < restored.vector_data@.len() && 0 <= off
                < restored.vector_data@[i].1.vector_storage.vectors@.len()
                ==> (#[trigger] restored.vector_data@[i].1.vector_storage.vectors@[off as int])@
                == seg.vector_data@[i].1.vector_storage.vectors@[off as int]@,
        restored.version == seg.version,
{
}

/// A scroll with no filter returns every live point (up to the limit), in
/// ascending external order.
pub proof fn lemma_empty_filter_returns_all(seg: Segment)
    ensures
        spec_read_filtered(seg, None, None, None) == Seq::new(
            seg.id_tracker.spec_links().len(),
            |k: int| seg.id_tracker.spec_links()[k].0,
        ),
{
    let pred = crate::segment::spec_scroll_pred(seg, None, None);
    let links = seg.id_tracker.spec_links();
    lemma_filter_true(links, pred);
    assert(spec_read_filtered(seg, None, None, None) =~= links.filter(pred).take(
        links.filter(pred).len() as int,
    ).map_values(|l: (PointIdType, PointOffsetType)| l.0));
    assert(links.filter(pred).take(links.filter(pred).len() as int) =~= links.filter(pred));
    assert(links.filter(pred).map_values(|l: (PointIdType, PointOffsetType)| l.0) =~= Seq::new(
        links.len(),
        |k: int| links[k].0,
    ));
}

/// Filtering with an always-true predicate keeps the sequence.
pub proof fn lemma_filter_true<A>(s: Seq<A>, pred: spec_fn(A) -> bool)
    requires
        forall|x: A| #[trigger] pred(x),
    ensures
        s.filter(pred) == s,
    decreases s.len(),
{
    reveal(Seq::filter);
    if s.len() > 0 {
        lemma_filter_true(s.drop_last(), pred);
        assert(pred(s.last()));
        assert(s.filter(pred) =~= s.drop_last().push(s.last()));
        assert(s.drop_last().push(s.last()) =~= s);
    } else {
        assert(s.filter(pred) =~= s);
    }
}

/// A scroll with a zero limit returns nothing.
pub proof fn lemma_zero_limit_returns_nothing(
    seg: Segment,
    offset: Option<PointIdType>,
    filter: Option<Filter>,
)
    ensures
        spec_read_filtered(seg, offset, Some(0usize), filter).len() == 0,
{
}


/// Deleting a point twice with the same operation number leaves the
/// segment exactly as after the first deletion: once the point is gone,
/// the repeated operation reports nothing to do and changes nothing.
pub proof fn lemma_delete_idempotent(
    s1: Segment,
    s2: Segment,
    point_id: PointIdType,
    reported_again: bool,
)
    requires
        !s1.spec_has_point(point_id),
        // What `delete_point` ensures for a segment that lacks the point.
        !s1.spec_has_point(point_id) ==> !reported_again && s2 == s1,
    ensures
        s2 == s1,
        !reported_again,
{
}


/// After an upsert the point's recorded version is at least the operation
/// number: the applied case records it exactly; the skipped case already
/// had a strictly newer one. A skipped upsert of a point the segment does
/// not hold leaves no recorded version, so that input is left out: the
/// segment version must not outrun the operation unless the point exists.
pub proof fn lemma_point_version_after_upsert(
    pre: Segment,
    post: Segment,
    op_num: SeqNumberType,
    point_id: PointIdType,
    vectors: NamedVectors,
)
    requires
        pre.wf(),
        pre.spec_has_point(point_id) || pre.spec_version() <= op_num,
        crate::segment::spec_stale(pre, point_id, op_num) ==> post == (Segment {
            error_status: crate::segment::spec_settled_error(
                pre.error_status,
                op_num,
                if pre.spec_has_point(point_id) {
                    Some(point_id)
                } else {
                    None
                },
                None,
            ),
            ..pre
        }),
        !crate::segment::spec_stale(pre, point_id, op_num) ==> spec_upsert_applied(
            pre,
            post,
            op_num,
            point_id,
            vectors,
        ),
    ensures
        post.spec_point_version(point_id) is Some,
        post.spec_point_version(point_id)->Some_0 >= op_num,
{
    if crate::segment::spec_stale(pre, point_id, op_num) {
        assert(pre.spec_has_point(point_id));
        crate::segment::lemma_linked_point_version(pre, point_id);
        assert(post.spec_point_version(point_id) == pre.spec_point_version(point_id));
    }
}

/// A successful upsert leaves the point present, its recorded version at
/// least the operation number, and the segment version at least as new.
/// The segment version must dominate every recorded version (operation
/// chains preserve this: an applied operation records at most the new
/// segment version) and must not outrun the operation for a point the
/// segment does not hold.
pub proof fn lemma_upsert_establishes_version(
    pre: Segment,
    post: Segment,
    op_num: SeqNumberType,
    point_id: PointIdType,
    vectors: NamedVectors,
)
    requires
        pre.wf(),
        forall|e: PointIdType|
            #[trigger] pre.spec_point_version(e) is Some ==> pre.spec_point_version(
                e,
            )->Some_0 <= pre.spec_version(),
        pre.spec_has_point(point_id) || pre.spec_version() <= op_num,
        crate::segment::spec_stale(pre, point_id, op_num) ==> post == (Segment {
            error_status: crate::segment::spec_settled_error(
                pre.error_status,
                op_num,
                if pre.spec_has_point(point_id) {
                    Some(point_id)
                } else {
                    None
                },
                None,
            ),
            ..pre
        }),
        !crate::segment::spec_stale(pre, point_id, op_num) ==> spec_upsert_applied(
            pre,
            post,
            op_num,
            point_id,
            vectors,
        ),
    ensures
        post.spec_has_point(point_id),
        post.spec_point_version(point_id) is Some,
        post.spec_point_version(point_id)->Some_0 >= op_num,
        post.spec_version() >= op_num,
{
    if crate::segment::spec_stale(pre, point_id, op_num) {
        assert(pre.spec_has_point(point_id));
        crate::segment::lemma_linked_point_version(pre, point_id);
        assert(post.spec_point_version(point_id) == pre.spec_point_version(point_id));
        assert(pre.spec_point_version(point_id)->Some_0 <= pre.spec_version());
        assert(post.spec_version() == pre.spec_version());
    } else {
        assert(post.version == Some(
            crate::segment::spec_max_u64(pre.spec_version(), op_num),
        ));
    }
}

} // verus!
