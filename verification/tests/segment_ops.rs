//! Segment-level behaviour: search, payload filtering, snapshots, flushing
//! and consistency repair.

use vector_shard::errors::OperationError;
use vector_shard::payload::{Condition, FieldCondition, Filter, Match, Payload, PayloadValue};
use vector_shard::segment::{only_default_vector, restore_snapshot_segment, NamedVectors, Segment};
use vector_shard::segment_constructor::{build_segment, create_segment};
use vector_shard::types::{
    Distance, Indexes, PayloadStorageType, PointIdType, SegmentConfig, StorageType,
    VectorDataConfig, WithPayload, WithVector,
};

fn default_config(dim: usize, distance: Distance) -> SegmentConfig {
    SegmentConfig {
        vector_data: vec![(String::new(), VectorDataConfig { size: dim, distance })],
        index: Indexes::Plain,
        storage_type: StorageType::InMemory,
        payload_storage_type: PayloadStorageType::InMemory,
    }
}

fn build_test_segment(dim: usize, distance: Distance) -> Segment {
    create_segment(None, &default_config(dim, distance)).unwrap()
}

fn num_id(n: u64) -> PointIdType {
    PointIdType::from(n)
}

#[test]
fn test_search_batch_equivalence_single() {
    let dim = 4;
    let mut segment = build_test_segment(dim, Distance::Dot);

    let vec4 = vec![1100, 1000, 0, 1000];
    segment
        .upsert_vector(100, num_id(4), &only_default_vector(&vec4))
        .unwrap();
    let vec6 = vec![1000, 1000, 500, 1000];
    segment
        .upsert_vector(101, num_id(6), &only_default_vector(&vec6))
        .unwrap();
    segment.delete_point(102, num_id(1)).unwrap();

    let query_vector = vec![1000, 1000, 1000, 1000];
    let search_result = segment
        .search(
            &String::new(),
            &query_vector,
            &WithPayload::default(),
            &WithVector::Enable(false),
            None,
            10,
            None,
        )
        .unwrap();

    let search_batch_result = segment
        .search_batch(
            &String::new(),
            &vec![query_vector.clone()],
            &WithPayload::default(),
            &WithVector::Enable(false),
            None,
            10,
            None,
        )
        .unwrap();

    assert!(!search_result.is_empty());
    assert_eq!(search_result.len(), search_batch_result[0].len());
    for (a, b) in search_result.iter().zip(search_batch_result[0].iter()) {
        assert_eq!(a.id, b.id);
        assert_eq!(a.score, b.score);
        assert_eq!(a.version, b.version);
    }
}

fn john_doe_payload() -> Payload {
    let mut payload = Payload::new();
    payload.set(
        "name".to_string(),
        vec![PayloadValue::Keyword("John Doe".to_string())],
    );
    payload.set("age".to_string(), vec![PayloadValue::Integer(43)]);
    payload.set(
        "metadata.height".to_string(),
        vec![PayloadValue::Integer(50)],
    );
    payload.set(
        "metadata.width".to_string(),
        vec![PayloadValue::Integer(60)],
    );
    payload
}

fn match_filter(key: &str, value: i64) -> Filter {
    Filter::new_must(Condition::Field(FieldCondition {
        key: key.to_string(),
        match_value: Some(Match::Integer(value)),
        range: None,
    }))
}

#[test]
fn test_from_filter_attributes() {
    let mut segment = build_test_segment(2, Distance::Dot);
    segment
        .upsert_vector(0, num_id(0), &only_default_vector(&vec![1000, 1000]))
        .unwrap();

    segment
        .set_full_payload(0, num_id(0), &john_doe_payload())
        .unwrap();

    let filter_valid = match_filter("metadata.height", 50);
    let filter_invalid = match_filter("metadata.height", 60);

    let results_with_valid_filter = segment
        .search(
            &String::new(),
            &vec![1000, 1000],
            &WithPayload::default(),
            &WithVector::Enable(false),
            Some(&filter_valid),
            1,
            None,
        )
        .unwrap();
    assert_eq!(results_with_valid_filter.len(), 1);
    assert_eq!(results_with_valid_filter.first().unwrap().id, num_id(0));

    let results_with_invalid_filter = segment
        .search(
            &String::new(),
            &vec![1000, 1000],
            &WithPayload::default(),
            &WithVector::Enable(false),
            Some(&filter_invalid),
            1,
            None,
        )
        .unwrap();
    assert!(results_with_invalid_filter.is_empty());
}

#[test]
fn test_snapshot() {
    let mut segment = build_test_segment(2, Distance::Dot);
    segment
        .upsert_vector(0, num_id(0), &only_default_vector(&vec![1000, 1000]))
        .unwrap();
    segment
        .set_full_payload(1, num_id(0), &john_doe_payload())
        .unwrap();

    let snapshot = segment.take_snapshot().unwrap();
    let restored_segment = restore_snapshot_segment(snapshot);

    assert_eq!(segment.points_count(), restored_segment.points_count());
    for id in segment.iter_points() {
        let vectors = segment.all_vectors(id).unwrap();
        let restored_vectors = restored_segment.all_vectors(id).unwrap();
        assert_eq!(vectors.pairs.len(), restored_vectors.pairs.len());
        for (a, b) in vectors.pairs.iter().zip(restored_vectors.pairs.iter()) {
            assert_eq!(a.0, b.0);
            assert_eq!(a.1, b.1);
        }

        let payload = segment.payload(id).unwrap();
        let restored_payload = restored_segment.payload(id).unwrap();
        assert_eq!(payload.entries.len(), restored_payload.entries.len());
        for entry in payload.entries.iter() {
            let other = restored_payload.get(&entry.0).unwrap();
            assert_eq!(entry.1.len(), other.len());
        }
    }
}

#[test]
fn async_flush_reports_the_previously_durable_version() {
    let mut segment = build_test_segment(2, Distance::Dot);
    segment
        .upsert_vector(5, num_id(1), &only_default_vector(&vec![1, 1]))
        .unwrap();
    // Nothing was durable yet, so the async flush reports zero even
    // though version 5 is being persisted.
    assert_eq!(segment.flush(false).unwrap(), 0);
    // Now 5 is durable; a later async flush reports it.
    segment
        .upsert_vector(9, num_id(1), &only_default_vector(&vec![2, 2]))
        .unwrap();
    assert_eq!(segment.flush(false).unwrap(), 5);
    assert_eq!(segment.flush(true).unwrap(), 9);
}

#[test]
fn test_background_flush() {
    let mut segment = build_test_segment(2, Distance::Dot);
    segment
        .upsert_vector(0, num_id(0), &only_default_vector(&vec![1000, 1000]))
        .unwrap();
    segment
        .set_full_payload(0, num_id(0), &john_doe_payload())
        .unwrap();
    segment.flush(false).unwrap();

    // A second, synchronous flush must leave the persisted version equal
    // to the live version.
    segment.flush(true).unwrap();
    assert_eq!(segment.persisted_version, segment.version);
    assert_eq!(segment.load_state().unwrap().version, segment.version);
}

#[test]
fn test_check_consistency() {
    let dim = 4;
    let mut segment = build_test_segment(dim, Distance::Dot);

    let vec4 = vec![1100, 1000, 0, 1000];
    segment
        .upsert_vector(100, num_id(4), &only_default_vector(&vec4))
        .unwrap();
    let vec6 = vec![1000, 1000, 500, 1000];
    segment
        .upsert_vector(101, num_id(6), &only_default_vector(&vec6))
        .unwrap();

    segment.check_consistency_and_repair().unwrap();

    let query_vector = vec![1000, 1000, 1000, 1000];
    let search_result = segment
        .search(
            &String::new(),
            &query_vector,
            &WithPayload::default(),
            &WithVector::Enable(false),
            None,
            10,
            None,
        )
        .unwrap();

    assert_eq!(search_result.len(), 2);
    assert_eq!(search_result[0].id, num_id(6));
    assert_eq!(search_result[1].id, num_id(4));
    assert!(search_result[0].score > search_result[1].score);

    assert!(segment.vector(&String::new(), num_id(6)).is_ok());

    // Break the id tracker on purpose: drop the external id directly.
    segment.id_tracker.drop(num_id(6)).unwrap();

    let search_result = segment
        .search(
            &String::new(),
            &query_vector,
            &WithPayload::default(),
            &WithVector::Enable(false),
            None,
            10,
            None,
        )
        .unwrap();

    assert_eq!(search_result.len(), 1);
    assert_eq!(search_result[0].id, num_id(4));

    match segment.vector(&String::new(), num_id(6)) {
        Err(OperationError::PointIdError { missed_point_id }) => {
            assert_eq!(missed_point_id, num_id(6));
        }
        other => panic!("expected a missing-point error, got {:?}", other.is_ok()),
    }

    segment.check_consistency_and_repair().unwrap();

    let search_result = segment
        .search(
            &String::new(),
            &query_vector,
            &WithPayload::default(),
            &WithVector::Enable(false),
            None,
            10,
            None,
        )
        .unwrap();
    assert_eq!(search_result.len(), 1);
    assert_eq!(search_result[0].id, num_id(4));
}

#[test]
fn wrong_dimension_is_rejected_and_segment_unchanged() {
    let mut segment = build_test_segment(4, Distance::Dot);
    segment
        .upsert_vector(1, num_id(7), &only_default_vector(&vec![1, 2, 3, 4]))
        .unwrap();

    let before_count = segment.points_count();
    let result = segment.upsert_vector(2, num_id(8), &only_default_vector(&vec![1, 2, 3]));
    match result {
        Err(OperationError::WrongVector {
            expected_dim,
            received_dim,
        }) => {
            assert_eq!(expected_dim, 4);
            assert_eq!(received_dim, 3);
        }
        other => panic!("expected a dimension error, got {:?}", other.is_ok()),
    }
    assert_eq!(segment.points_count(), before_count);
    assert!(!segment.has_point(num_id(8)));

    // The search side reports the same error kind.
    let search = segment.search(
        &String::new(),
        &vec![1, 2, 3],
        &WithPayload::default(),
        &WithVector::Enable(false),
        None,
        10,
        None,
    );
    assert!(matches!(
        search,
        Err(OperationError::WrongVector { .. })
    ));
}

#[test]
fn unknown_vector_name_in_selector_is_a_service_error() {
    let mut segment = build_test_segment(2, Distance::Dot);
    segment
        .upsert_vector(1, num_id(1), &only_default_vector(&vec![10, 10]))
        .unwrap();

    let result = segment.search(
        &String::new(),
        &vec![10, 10],
        &WithPayload::default(),
        &WithVector::Selector(vec!["other".to_string()]),
        None,
        10,
        None,
    );
    assert!(matches!(result, Err(OperationError::ServiceError { .. })));
}

#[test]
fn upsert_twice_with_same_operation_is_a_no_op() {
    let mut segment = build_test_segment(2, Distance::Dot);
    let vectors = only_default_vector(&vec![7, 9]);
    segment.upsert_vector(5, num_id(3), &vectors).unwrap();

    let version_after_first = segment.version;
    let point_version_after_first = segment.point_version(num_id(3));
    let stored_after_first = segment.vector(&String::new(), num_id(3)).unwrap();

    segment.upsert_vector(5, num_id(3), &vectors).unwrap();

    assert_eq!(segment.version, version_after_first);
    assert_eq!(segment.point_version(num_id(3)), point_version_after_first);
    assert_eq!(
        segment.vector(&String::new(), num_id(3)).unwrap(),
        stored_after_first
    );
    assert_eq!(segment.points_count(), 1);
}

#[test]
fn stale_operation_is_skipped() {
    let mut segment = build_test_segment(2, Distance::Dot);
    segment
        .upsert_vector(10, num_id(1), &only_default_vector(&vec![1, 1]))
        .unwrap();
    let applied = segment
        .upsert_vector(3, num_id(1), &only_default_vector(&vec![9, 9]))
        .unwrap();
    assert!(!applied);
    assert_eq!(
        segment.vector(&String::new(), num_id(1)).unwrap(),
        vec![1, 1]
    );
    assert_eq!(segment.point_version(num_id(1)), Some(10));
}

#[test]
fn point_version_is_at_least_the_operation_number() {
    let mut segment = build_test_segment(2, Distance::Dot);
    segment
        .upsert_vector(42, num_id(9), &only_default_vector(&vec![5, 5]))
        .unwrap();
    assert!(segment.point_version(num_id(9)).unwrap() >= 42);
    segment
        .upsert_vector(41, num_id(9), &only_default_vector(&vec![6, 6]))
        .unwrap();
    assert!(segment.point_version(num_id(9)).unwrap() >= 41);
}

#[test]
fn read_filtered_boundaries() {
    let mut segment = build_test_segment(2, Distance::Dot);
    for i in 0..5u64 {
        segment
            .upsert_vector(i, num_id(i), &only_default_vector(&vec![i as i64, 0]))
            .unwrap();
    }
    segment.delete_point(10, num_id(2)).unwrap();

    // An empty filter returns every live point.
    let all = segment.read_filtered(None, None, None);
    assert_eq!(
        all,
        vec![num_id(0), num_id(1), num_id(3), num_id(4)]
    );

    // A zero limit returns nothing and changes nothing.
    let nothing = segment.read_filtered(None, Some(0), None);
    assert!(nothing.is_empty());
    assert_eq!(segment.points_count(), 4);

    // Offsets are inclusive lower bounds.
    let from_three = segment.read_filtered(Some(&num_id(3)), None, None);
    assert_eq!(from_three, vec![num_id(3), num_id(4)]);

    // Ranges are half open.
    let range = segment.read_range(Some(&num_id(1)), Some(&num_id(4)));
    assert_eq!(range, vec![num_id(1), num_id(3)]);
}

#[test]
fn cosine_vectors_are_normalized_on_insert() {
    let mut segment = build_test_segment(2, Distance::Cosine);
    // A vector of length 5000 in milli-units: (3000, 4000).
    segment
        .upsert_vector(1, num_id(1), &only_default_vector(&vec![3000, 4000]))
        .unwrap();
    let stored = segment.vector(&String::new(), num_id(1)).unwrap();
    // Normalized to the fixed-point unit: 3000 * 1000 / 5000 = 600 and
    // 4000 * 1000 / 5000 = 800.
    assert_eq!(stored, vec![600, 800]);
}

#[test]
fn exact_scores_for_dot_distance() {
    let mut segment = build_test_segment(4, Distance::Dot);
    segment
        .upsert_vector(100, num_id(4), &only_default_vector(&vec![1100, 1000, 0, 1000]))
        .unwrap();
    let result = segment
        .search(
            &String::new(),
            &vec![1000, 1000, 1000, 1000],
            &WithPayload::default(),
            &WithVector::Enable(false),
            None,
            10,
            None,
        )
        .unwrap();
    assert_eq!(result.len(), 1);
    // 1100*1000 + 1000*1000 + 0 + 1000*1000
    assert_eq!(result[0].score, 3_100_000);
}

#[test]
fn error_latch_blocks_newer_operations() {
    let mut segment = build_test_segment(2, Distance::Dot);
    segment
        .upsert_vector(1, num_id(1), &only_default_vector(&vec![1, 1]))
        .unwrap();
    // A component outside the fixed-point range is an internal error and
    // arms the latch.
    let res = segment.upsert_vector(
        2,
        num_id(2),
        &only_default_vector(&vec![2_000_000_000, 0]),
    );
    assert!(matches!(res, Err(OperationError::ServiceError { .. })));
    assert!(segment.check_error().is_some());

    // A newer operation is rejected until recovery.
    let res = segment.upsert_vector(3, num_id(3), &only_default_vector(&vec![1, 2]));
    assert!(res.is_err());

    // Retrying the failed point with an acceptable value releases the
    // latch.
    segment
        .upsert_vector(2, num_id(2), &only_default_vector(&vec![5, 5]))
        .unwrap();
    assert!(segment.check_error().is_none());
    segment
        .upsert_vector(3, num_id(3), &only_default_vector(&vec![1, 2]))
        .unwrap();
}

#[test]
fn build_segment_names_directory_by_uuid() {
    let config = default_config(2, Distance::Dot);
    let (segment, dir_name) = build_segment(&config).unwrap();
    assert_eq!(segment.points_count(), 0);
    assert_eq!(dir_name.chars().count(), 36);
    assert_eq!(dir_name.matches('-').count(), 4);
}

#[test]
fn stale_skip_releases_the_error_latch() {
    let mut segment = build_test_segment(2, Distance::Dot);
    segment
        .upsert_vector(5, num_id(1), &only_default_vector(&vec![1, 1]))
        .unwrap();

    // A wrongly named vector raises an internal error and arms the latch
    // against the point.
    let bad = NamedVectors { pairs: vec![("missing".to_string(), vec![2, 2])] };
    assert!(segment.upsert_vector(6, num_id(1), &bad).is_err());
    assert!(segment.check_error().is_some());

    // Newer operations are rejected while the latch is armed.
    assert!(matches!(
        segment.upsert_vector(9, num_id(1), &only_default_vector(&vec![3, 3])),
        Err(OperationError::ServiceError { .. })
    ));

    // A retried, by-now-stale operation on the latched point is skipped —
    // and the benign outcome releases the latch.
    assert_eq!(
        segment
            .upsert_vector(3, num_id(1), &only_default_vector(&vec![4, 4]))
            .unwrap(),
        false
    );
    assert!(segment.check_error().is_none());

    // The segment accepts new operations again.
    assert_eq!(
        segment
            .upsert_vector(9, num_id(1), &only_default_vector(&vec![3, 3]))
            .unwrap(),
        true
    );
    assert_eq!(segment.point_version(num_id(1)), Some(9));
}

#[test]
fn outdated_upsert_of_an_absent_point_is_skipped() {
    let mut segment = build_test_segment(2, Distance::Dot);
    segment
        .upsert_vector(1, num_id(1), &only_default_vector(&vec![1, 1]))
        .unwrap();
    segment.delete_point(2, num_id(1)).unwrap();

    // The segment has seen operation 2; replaying the original upsert
    // does not re-create the point.
    assert_eq!(
        segment
            .upsert_vector(1, num_id(1), &only_default_vector(&vec![1, 1]))
            .unwrap(),
        false
    );
    assert!(!segment.has_point(num_id(1)));

    // A genuinely new operation still lands.
    assert_eq!(
        segment
            .upsert_vector(3, num_id(1), &only_default_vector(&vec![5, 5]))
            .unwrap(),
        false
    );
    assert!(segment.has_point(num_id(1)));
    assert_eq!(segment.point_version(num_id(1)), Some(3));
}

#[test]
fn tied_scores_agree_between_batch_and_single_search() {
    let mut segment = build_test_segment(2, Distance::Dot);
    // Two points with identical vectors: a genuine tie at the top.
    segment
        .upsert_vector(1, num_id(1), &only_default_vector(&vec![4, 4]))
        .unwrap();
    segment
        .upsert_vector(2, num_id(2), &only_default_vector(&vec![4, 4]))
        .unwrap();
    segment
        .upsert_vector(3, num_id(3), &only_default_vector(&vec![1, 0]))
        .unwrap();

    let query = vec![1000, 1000];
    let single = segment
        .search(
            &String::new(),
            &query,
            &WithPayload::default(),
            &WithVector::Enable(false),
            None,
            2,
            None,
        )
        .unwrap();
    let batch = segment
        .search_batch(
            &String::new(),
            &vec![query.clone()],
            &WithPayload::default(),
            &WithVector::Enable(false),
            None,
            2,
            None,
        )
        .unwrap();

    let single_scores: Vec<_> = single.iter().map(|e| e.score).collect();
    let batch_scores: Vec<_> = batch[0].iter().map(|e| e.score).collect();
    assert_eq!(single_scores, batch_scores);
    assert_eq!(single_scores.len(), 2);
    assert_eq!(single_scores[0], single_scores[1]);
}
