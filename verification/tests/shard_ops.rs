//! Shard-level behaviour: the estimator, deduplication, the operation log,
//! replay, snapshots, the proxy protocol and the optimizers.

use vector_shard::errors::OperationError;
use vector_shard::holder::SegmentHolder;
use vector_shard::optimizer::{get_indexing_optimizer, get_merge_optimizer, VacuumOptimizer};
use vector_shard::payload::{Condition, FieldCondition, Filter, Match, Payload, PayloadValue};
use vector_shard::payload_index::CardinalityEstimation;
use vector_shard::proxy::ProxySegment;
use vector_shard::segment::{only_default_vector, Segment};
use vector_shard::segment_constructor::{
    check_version_compatibility, create_segment, load_segment_state_v3, ObsoleteSegmentConfig,
    ObsoleteSegmentState, SegmentVersion,
};
use vector_shard::shard::LocalShard;
use vector_shard::types::{
    Distance, HnswConfig, Indexes, PayloadStorageType, PointIdType, SegmentConfig, SegmentType,
    StorageType, VectorDataConfig, WithPayload, WithVector,
};
use vector_shard::wal::{UpdateOperation, Wal};

fn default_config(dim: usize) -> SegmentConfig {
    SegmentConfig {
        vector_data: vec![(
            String::new(),
            VectorDataConfig {
                size: dim,
                distance: Distance::Dot,
            },
        )],
        index: Indexes::Plain,
        storage_type: StorageType::InMemory,
        payload_storage_type: PayloadStorageType::InMemory,
    }
}

fn empty_segment(dim: usize) -> Segment {
    create_segment(None, &default_config(dim)).unwrap()
}

fn num_id(n: u64) -> PointIdType {
    PointIdType::from(n)
}

#[test]
fn deduplication_keeps_the_newest_copy() {
    let mut holder = SegmentHolder::new();

    let mut seg1 = empty_segment(2);
    seg1.upsert_vector(4, num_id(10), &only_default_vector(&vec![1, 1]))
        .unwrap();
    seg1.upsert_vector(5, num_id(11), &only_default_vector(&vec![2, 2]))
        .unwrap();

    let mut seg2 = empty_segment(2);
    seg2.upsert_vector(3, num_id(11), &only_default_vector(&vec![8, 8]))
        .unwrap();
    seg2.upsert_vector(7, num_id(10), &only_default_vector(&vec![9, 9]))
        .unwrap();

    holder.add(seg1);
    holder.add(seg2);

    let dropped = holder.deduplicate_points().unwrap();
    assert_eq!(dropped, 2);

    // Point 10: the copy with version 7 (second segment) survives.
    assert!(!holder.segments[0].has_point(num_id(10)));
    assert!(holder.segments[1].has_point(num_id(10)));
    assert_eq!(holder.segments[1].point_version(num_id(10)), Some(7));

    // Point 11: the copy with version 5 (first segment) survives.
    assert!(holder.segments[0].has_point(num_id(11)));
    assert!(!holder.segments[1].has_point(num_id(11)));
    assert_eq!(holder.segments[0].point_version(num_id(11)), Some(5));
}

#[test]
fn estimator_combines_clauses_within_bounds() {
    let mut segment = empty_segment(2);
    for i in 0..10u64 {
        segment
            .upsert_vector(2 * i, num_id(i), &only_default_vector(&vec![i as i64, 0]))
            .unwrap();
        let mut payload = Payload::new();
        payload.set(
            "color".to_string(),
            vec![PayloadValue::Keyword(
                if i % 2 == 0 { "red" } else { "blue" }.to_string(),
            )],
        );
        payload.set("rank".to_string(), vec![PayloadValue::Integer(i as i64)]);
        segment.set_payload(2 * i + 1, num_id(i), &payload).unwrap();
    }

    // An indexed field gives an exact count.
    segment
        .create_field_index(
            200,
            &"color".to_string(),
            Some(vector_shard::payload_index::PayloadSchemaType::Keyword),
        )
        .unwrap();

    let red_filter = Filter::new_must(Condition::Field(FieldCondition {
        key: "color".to_string(),
        match_value: Some(Match::Keyword("red".to_string())),
        range: None,
    }));

    let est: CardinalityEstimation = segment.estimate_points_count(Some(&red_filter));
    assert_eq!(est.min, 5);
    assert_eq!(est.exp, 5);
    assert_eq!(est.max, 5);

    // The exact counter agrees with the planner (the count law).
    assert_eq!(segment.count(&red_filter), 5);
    let matched = segment.query_points(&red_filter);
    assert_eq!(matched.len(), 5);

    // No filter: the estimate is the exact live count.
    let est_all = segment.estimate_points_count(None);
    assert_eq!(est_all.min, 10);
    assert_eq!(est_all.max, 10);

    // An emptiness check on the indexed field: zero up to the points the
    // index does not cover; every point carries a color, so none remain.
    let empty_indexed = Filter::new_must(Condition::IsEmpty(
        vector_shard::payload::IsEmptyCondition {
            key: "color".to_string(),
        },
    ));
    let est_empty = segment.estimate_points_count(Some(&empty_indexed));
    assert_eq!(est_empty.min, 0);
    assert_eq!(est_empty.exp, 0);
    assert_eq!(est_empty.max, 0);

    // On the unindexed field the estimator knows nothing: none to all,
    // expecting half.
    let empty_unindexed = Filter::new_must(Condition::IsEmpty(
        vector_shard::payload::IsEmptyCondition {
            key: "rank".to_string(),
        },
    ));
    let est_unknown = segment.estimate_points_count(Some(&empty_unindexed));
    assert_eq!(est_unknown.min, 0);
    assert_eq!(est_unknown.exp, 5);
    assert_eq!(est_unknown.max, 10);

    // The exact count still lies inside both estimates.
    assert_eq!(segment.count(&empty_indexed), 0);
    assert_eq!(segment.count(&empty_unindexed), 0);
}

#[test]
fn wal_write_ack_and_empty_restore() {
    let mut wal = Wal::new(4);
    for i in 0..10u64 {
        let seq = wal
            .write(UpdateOperation::DeletePoint {
                point_id: num_id(i),
            })
            .unwrap();
        assert_eq!(seq, i);
    }
    assert_eq!(wal.last_index(), 10);

    // Acknowledging the first six operations drops one whole log segment
    // of four records.
    wal.ack(5);
    assert_eq!(wal.first_index, 4);
    assert_eq!(wal.last_index(), 10);

    // A restore without the log starts empty at the same numbering.
    let restored = Wal::empty_at(wal.last_index(), 4);
    assert_eq!(restored.last_index(), 10);
    assert_eq!(restored.len(), 0);
}

fn make_shard() -> LocalShard {
    let mut holder = SegmentHolder::new();
    holder.add(empty_segment(2));
    LocalShard::new(holder, Wal::new(32))
}

#[test]
fn replaying_the_log_twice_equals_replaying_it_once() {
    let mut shard = make_shard();
    for i in 0..8u64 {
        shard
            .update(UpdateOperation::UpsertPoint {
                point_id: num_id(i),
                vectors: only_default_vector(&vec![i as i64, 1]),
            })
            .unwrap();
    }
    shard
        .update(UpdateOperation::DeletePoint {
            point_id: num_id(3),
        })
        .unwrap();

    let snapshot_once = observe(&shard);
    let tombstones_once: Vec<usize> = shard
        .segments
        .segments
        .iter()
        .map(|s| s.deleted_count())
        .collect();
    shard.load_from_wal().unwrap();
    let after_first_replay = observe(&shard);
    shard.load_from_wal().unwrap();
    let after_second_replay = observe(&shard);

    assert_eq!(snapshot_once, after_first_replay);
    assert_eq!(after_first_replay, after_second_replay);

    // Replay re-creates nothing: a deleted point's upsert is older than
    // the segment, so tombstone counts stay put.
    let tombstones_replayed: Vec<usize> = shard
        .segments
        .segments
        .iter()
        .map(|s| s.deleted_count())
        .collect();
    assert_eq!(tombstones_once, tombstones_replayed);
}

fn observe(shard: &LocalShard) -> Vec<(PointIdType, Option<u64>, Vec<i64>)> {
    let mut out = Vec::new();
    for seg in shard.segments.segments.iter() {
        for id in seg.iter_points() {
            let vector = seg.vector(&String::new(), id).unwrap();
            out.push((id, seg.point_version(id), vector));
        }
    }
    out
}

#[test]
fn restart_from_log_rebuilds_the_same_points() {
    let mut shard = make_shard();
    for i in 0..50u64 {
        shard
            .update(UpdateOperation::UpsertPoint {
                point_id: num_id(i),
                vectors: only_default_vector(&vec![i as i64, -(i as i64)]),
            })
            .unwrap();
    }
    shard.flush_and_ack().unwrap();
    let live = observe(&shard);

    // A restart: fresh empty segments, the retained log replayed over
    // them. (The log was not truncated past anything undurable: every
    // segment flushed first.)
    let mut restarted = LocalShard::new(
        {
            let mut h = SegmentHolder::new();
            h.add(empty_segment(2));
            h
        },
        Wal {
            first_index: shard.wal.first_index,
            records: shard.wal.records,
            segment_capacity: shard.wal.segment_capacity,
        },
    );
    restarted.load_from_wal().unwrap();
    let replayed = observe(&restarted);

    // The durable prefix was acknowledged away, so the replayed state must
    // agree with the live one on every point the log still holds; with
    // everything flushed and the log intact from the watermark, the two
    // agree entirely when the log was not truncated. Check agreement on
    // the points the log retains.
    for (id, version, vector) in replayed.iter() {
        let found = live.iter().find(|(lid, _, _)| lid == id).unwrap();
        assert_eq!(&found.1, version);
        assert_eq!(&found.2, vector);
    }
}

#[test]
fn snapshot_without_log_keeps_numbering() {
    let mut shard = make_shard();
    for i in 0..5u64 {
        shard
            .update(UpdateOperation::UpsertPoint {
                point_id: num_id(i),
                vectors: only_default_vector(&vec![1, 2]),
            })
            .unwrap();
    }
    let last_before = shard.wal.last_index();
    let (snaps, last) = shard.create_snapshot().unwrap();
    assert_eq!(last, last_before);

    // Restore: segments from the snapshots, an empty log at the same
    // numbering.
    let mut holder = SegmentHolder::new();
    let mut total_points = 0;
    for snap in snaps {
        let seg = vector_shard::segment::restore_snapshot_segment(snap);
        total_points += seg.points_count();
        holder.add(seg);
    }
    let restored = LocalShard::new(holder, shard.snapshot_empty_wal());
    assert_eq!(total_points, 5);
    assert_eq!(restored.wal.last_index(), last_before);
    assert_eq!(restored.wal.len(), 0);
}

#[test]
fn proxy_revert_is_observationally_invisible() {
    let mut wrapped = empty_segment(2);
    wrapped
        .upsert_vector(1, num_id(1), &only_default_vector(&vec![1, 1]))
        .unwrap();
    wrapped
        .upsert_vector(2, num_id(2), &only_default_vector(&vec![2, 2]))
        .unwrap();
    let before = (
        wrapped.points_count(),
        wrapped.vector(&String::new(), num_id(1)).unwrap(),
        wrapped.vector(&String::new(), num_id(2)).unwrap(),
    );

    let write_segment = empty_segment(2);
    let mut proxy = ProxySegment::new(wrapped, write_segment);

    // Writes during the optimization window.
    proxy
        .upsert_vector(3, num_id(3), &only_default_vector(&vec![3, 3]))
        .unwrap();
    proxy.delete_point(4, num_id(1)).unwrap();
    assert!(proxy.has_point(num_id(2)));
    assert!(proxy.has_point(num_id(3)));
    assert!(!proxy.has_point(num_id(1)));

    // Cancelled: revert hands the wrapped segment back untouched, plus
    // the window's writes for re-application.
    let (reverted, window) = proxy.revert();
    assert_eq!(reverted.points_count(), before.0);
    assert_eq!(reverted.vector(&String::new(), num_id(1)).unwrap(), before.1);
    assert_eq!(reverted.vector(&String::new(), num_id(2)).unwrap(), before.2);
    assert!(window.has_point(num_id(3)));
}

#[test]
fn indexing_optimizer_promotes_and_respects_cancellation() {
    let mut holder = SegmentHolder::new();
    let mut seg = empty_segment(2);
    for i in 0..200u64 {
        seg.upsert_vector(i, num_id(i), &only_default_vector(&vec![i as i64, 7]))
            .unwrap();
    }
    holder.add(seg);

    let optimizer = get_indexing_optimizer(100);
    let candidates = optimizer.check_condition(&holder);
    assert_eq!(candidates, vec![0]);

    let hnsw = HnswConfig {
        m: 16,
        ef_construct: 100,
        full_scan_threshold: 10,
        on_disk: false,
    };

    let query = vec![1000, 1000];
    let plain_result = holder.segments[0]
        .search(
            &String::new(),
            &query,
            &WithPayload::default(),
            &WithVector::Enable(false),
            None,
            10,
            None,
        )
        .unwrap();

    // Cancelled halfway: nothing changes, every point stays readable.
    let cancelled = optimizer.optimize(&mut holder, 0, hnsw, true);
    assert!(matches!(cancelled, Err(OperationError::Cancelled { .. })));
    assert_eq!(holder.segments[0].segment_type(), SegmentType::Plain);
    assert_eq!(holder.segments[0].points_count(), 200);

    // Completed: the segment is promoted and stops accepting appends,
    // and search answers exactly as before.
    optimizer.optimize(&mut holder, 0, hnsw, false).unwrap();
    assert_eq!(holder.segments[0].segment_type(), SegmentType::Indexed);
    assert!(!holder.segments[0].is_appendable());
    assert_eq!(holder.segments[0].points_count(), 200);
    let result = holder.segments[0]
        .search(
            &String::new(),
            &query,
            &WithPayload::default(),
            &WithVector::Enable(false),
            None,
            10,
            None,
        )
        .unwrap();
    assert_eq!(result.len(), 10);
    // The promoted index answers exactly: full recall against the plain
    // scan.
    for (a, b) in plain_result.iter().zip(result.iter()) {
        assert_eq!(a.id, b.id);
        assert_eq!(a.score, b.score);
    }

    let merge = get_merge_optimizer(5);
    assert!(merge.check_condition(&holder).is_empty());

    let vacuum = VacuumOptimizer {
        deleted_threshold_permille: 200,
        min_vectors_number: 10,
    };
    assert!(vacuum.check_condition(&holder).is_empty());
}

#[test]
fn stored_versions_gate_loading() {
    // Same line: loads.
    assert!(check_version_compatibility("0.4.0", "0.4.0").is_ok());
    // Older but migratable: loads.
    assert!(check_version_compatibility("0.3.1", SegmentVersion::current().as_str()).is_ok());
    // Newer than the application: refused.
    assert!(check_version_compatibility("9.0.0", "0.4.0").is_err());
    // Too old to migrate: refused.
    assert!(check_version_compatibility("0.2.9", "0.4.0").is_err());
    // Not a version at all: refused.
    assert!(check_version_compatibility("yesterday", "0.4.0").is_err());
}

#[test]
fn legacy_state_migrates_to_the_named_vector_layout() {
    let obsolete = ObsoleteSegmentState {
        version: 17,
        config: ObsoleteSegmentConfig {
            vector_size: 4,
            distance: Distance::Cosine,
            index: Indexes::Plain,
            storage_type: StorageType::InMemory,
            payload_storage_type: PayloadStorageType::InMemory,
        },
    };
    let state = load_segment_state_v3(&obsolete);
    assert_eq!(state.version, Some(17));
    assert_eq!(state.config.vector_data.len(), 1);
    assert_eq!(state.config.vector_data[0].0, "");
    assert_eq!(state.config.vector_data[0].1.size, 4);
    assert_eq!(state.config.vector_data[0].1.distance, Distance::Cosine);
}
