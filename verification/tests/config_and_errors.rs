//! Configuration checks, error mapping, filter conditions and the
//! remaining payload operations.

use vector_shard::api_models::{ApiStatus, CollectionDescription, CollectionsResponse, VersionInfo};
use vector_shard::errors::{CollectionError, OperationError, StorageError};
use vector_shard::payload::{
    Condition, FieldCondition, Filter, IsEmptyCondition, IsNullCondition, Match, Payload,
    PayloadValue, RangeInterval,
};
use vector_shard::segment::{only_default_vector, Segment};
use vector_shard::segment_constructor::create_segment;
use vector_shard::settings::{
    default_connection_pool_size, default_cors, default_log_level, max_web_workers, ClusterConfig,
    ConsensusConfig, P2pConfig, PerformanceConfig, ServiceConfig, Settings, StorageConfig,
};
use vector_shard::types::{
    Distance, Indexes, PayloadStorageType, PointIdType, SegmentConfig, StorageType,
    VectorDataConfig,
};

fn sample_settings(max_workers: Option<usize>) -> Settings {
    Settings {
        debug: false,
        log_level: default_log_level(),
        storage: StorageConfig {
            storage_path: "./storage".to_string(),
            on_disk_payload: false,
            performance: PerformanceConfig {
                max_search_threads: 7,
            },
        },
        service: ServiceConfig {
            host: "127.0.0.1".to_string(),
            http_port: 6333,
            grpc_port: None,
            max_request_size_mb: 32,
            max_workers,
            enable_cors: default_cors(),
            enable_tls: false,
            verify_https_client_certificate: false,
        },
        cluster: ClusterConfig {
            enabled: false,
            grpc_timeout_ms: 60000,
            connection_timeout_ms: 2000,
            p2p: P2pConfig::default(),
            consensus: ConsensusConfig::default(),
        },
        telemetry_disabled: true,
        tls: None,
    }
}

#[test]
fn settings_validation_reports_each_violated_constraint() {
    let good = sample_settings(None);
    assert!(good.validate_and_warn().is_empty());

    let mut bad = sample_settings(None);
    bad.service.host = String::new();
    bad.cluster.grpc_timeout_ms = 0;
    let warnings = bad.validate_and_warn();
    assert_eq!(warnings.len(), 2);

    assert!(bad.tls().is_err());
    assert!(matches!(
        Settings::tls_config_is_undefined_error(),
        StorageError::ServiceError { .. }
    ));
}

#[test]
fn web_worker_count_follows_the_settings() {
    assert_eq!(max_web_workers(&sample_settings(None), 8), 7);
    assert_eq!(max_web_workers(&sample_settings(Some(0)), 8), 7);
    assert_eq!(max_web_workers(&sample_settings(Some(0)), 1), 1);
    assert_eq!(max_web_workers(&sample_settings(Some(3)), 8), 3);
    assert_eq!(default_connection_pool_size(), 2);
}

#[test]
fn storage_errors_keep_their_kind() {
    assert!(matches!(
        StorageError::service_error("x"),
        StorageError::ServiceError { .. }
    ));
    assert!(matches!(
        StorageError::bad_request("x"),
        StorageError::BadRequest { .. }
    ));
    assert!(matches!(
        StorageError::bad_input("x"),
        StorageError::BadInput { .. }
    ));

    // Aggregated shard failures unwrap to the first error's kind, with the
    // overriding description.
    let nested = CollectionError::InconsistentShardFailure {
        shard_id: 1,
        first_err: Box::new(CollectionError::NotFound {
            what: "inner".to_string(),
        }),
    };
    match StorageError::from_inconsistent_shard_failure(nested, "outer text".to_string()) {
        StorageError::NotFound { description } => assert_eq!(description, "outer text"),
        other => panic!("unexpected kind: {other:?}"),
    }

    // A cancelled operation keeps its marker in front of the caller's
    // text.
    let cancelled = CollectionError::Cancelled {
        description: "halted".to_string(),
    };
    match StorageError::from_inconsistent_shard_failure(cancelled, "while merging".to_string()) {
        StorageError::ServiceError { description, .. } => {
            assert_eq!(description, "Operation cancelled: while merging")
        }
        other => panic!("unexpected kind: {other:?}"),
    }

    let proxied = CollectionError::ForwardProxyError {
        peer_id: 3,
        error: Box::new(CollectionError::Cancelled {
            description: "stopped".to_string(),
        }),
    };
    match StorageError::from_inconsistent_shard_failure(proxied, "forwarded".to_string()) {
        StorageError::ServiceError { description, .. } => {
            assert_eq!(description, "Operation cancelled: forwarded")
        }
        other => panic!("unexpected kind: {other:?}"),
    }
}

#[test]
fn api_models_carry_their_data() {
    let info = VersionInfo::default();
    assert!(!info.title.is_empty());
    assert_eq!(info.version, "0.4.0");

    let status = ApiStatus::Error("broken".to_string());
    assert!(matches!(status, ApiStatus::Error(_)));

    let listing = CollectionsResponse {
        collections: vec![CollectionDescription {
            name: "points".to_string(),
        }],
    };
    assert_eq!(listing.collections.len(), 1);
}

fn segment_with_payloads() -> Segment {
    let config = SegmentConfig {
        vector_data: vec![(
            String::new(),
            VectorDataConfig {
                size: 2,
                distance: Distance::Dot,
            },
        )],
        index: Indexes::Plain,
        storage_type: StorageType::InMemory,
        payload_storage_type: PayloadStorageType::InMemory,
    };
    let mut segment = create_segment(None, &config).unwrap();
    for i in 0..6u64 {
        segment
            .upsert_vector(
                2 * i,
                PointIdType::from(i),
                &only_default_vector(&vec![i as i64, 1]),
            )
            .unwrap();
        let mut payload = Payload::new();
        if i < 4 {
            payload.set("rank".to_string(), vec![PayloadValue::Integer(i as i64)]);
        }
        if i == 5 {
            payload.set("rank".to_string(), vec![PayloadValue::Null]);
        }
        segment
            .set_payload(2 * i + 1, PointIdType::from(i), &payload)
            .unwrap();
    }
    segment
}

#[test]
fn range_empty_null_and_id_conditions() {
    let segment = segment_with_payloads();

    let range_filter = Filter::new_must(Condition::Field(FieldCondition {
        key: "rank".to_string(),
        match_value: None,
        range: Some(RangeInterval {
            lt: None,
            gt: None,
            gte: Some(1),
            lte: Some(2),
        }),
    }));
    assert_eq!(segment.count(&range_filter), 2);

    let empty_filter = Filter::new_must(Condition::IsEmpty(IsEmptyCondition {
        key: "rank".to_string(),
    }));
    assert_eq!(segment.count(&empty_filter), 1);

    let null_filter = Filter::new_must(Condition::IsNull(IsNullCondition {
        key: "rank".to_string(),
    }));
    assert_eq!(segment.count(&null_filter), 1);

    let id_filter = Filter::new_must(Condition::HasId(vec![
        PointIdType::from(0),
        PointIdType::from(3),
        PointIdType::from(77),
    ]));
    assert_eq!(segment.count(&id_filter), 2);
}

#[test]
fn payload_edits_round_trip() {
    let mut segment = segment_with_payloads();
    let id = PointIdType::from(1);

    segment
        .delete_payload(100, id, &"rank".to_string())
        .unwrap();
    let after_delete = segment.payload(id).unwrap();
    assert!(after_delete.get(&"rank".to_string()).is_none());

    let mut payload = Payload::new();
    payload.set(
        "color".to_string(),
        vec![PayloadValue::Keyword("red".to_string())],
    );
    segment.set_payload(101, id, &payload).unwrap();
    segment.clear_payload(102, id).unwrap();
    let cleared = segment.payload(id).unwrap();
    assert!(cleared.get(&"color".to_string()).is_none());

    // Payload operations on unknown points report the missing id.
    let missing = PointIdType::from(99);
    assert!(matches!(
        segment.set_payload(103, missing, &payload),
        Err(OperationError::PointIdError { .. })
    ));
    assert!(matches!(
        segment.clear_payload(104, missing),
        Err(OperationError::PointIdError { .. })
    ));
}

#[test]
fn field_index_registry_round_trip() {
    let mut segment = segment_with_payloads();
    let key = "rank".to_string();

    // With no declared schema the type is inferred from stored values.
    segment.create_field_index(50, &key, None).unwrap();
    assert_eq!(segment.payload_index.config.len(), 1);

    assert!(segment.delete_field_index(51, &key).unwrap());
    assert!(segment.payload_index.config.is_empty());

    // Inference fails on a field no payload holds.
    let unknown = "absent".to_string();
    assert!(matches!(
        segment.create_field_index(52, &unknown, None),
        Err(OperationError::TypeInferenceError { .. })
    ));
}

#[test]
fn point_ids_parse_from_text() {
    assert_eq!(PointIdType::parse("42"), Some(PointIdType::NumId(42)));
    assert_eq!(PointIdType::parse("0"), Some(PointIdType::NumId(0)));
    assert!(matches!(
        PointIdType::parse("550e8400-e29b-41d4-a716-446655440000"),
        Some(PointIdType::Uuid(_))
    ));
    // Thirty-two digits overflow a numeric id but read as a plain-format
    // UUID.
    assert!(matches!(
        PointIdType::parse("99999999999999999999999999999999"),
        Some(PointIdType::Uuid(_))
    ));
    assert_eq!(PointIdType::parse("not an id"), None);
    assert_eq!(PointIdType::parse(""), None);
}
