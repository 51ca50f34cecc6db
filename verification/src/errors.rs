//! Error taxonomy of the shard: segment-level operation errors, collection
//! errors, and the storage-level error kinds exposed at the service boundary.

use vstd::prelude::*;
use crate::types::PointIdType;

verus! {

/// Error of a single segment operation.
#[derive(Debug)]
pub enum OperationError {
    /// A vector of the wrong dimension was handed in.
    WrongVector { expected_dim: usize, received_dim: usize },
    /// The external id is not present in this segment.
    PointIdError { missed_point_id: PointIdType },
    /// A field type could not be inferred from stored payload.
    TypeInferenceError { field_name: String },
    /// Internal failure of storage or indexes.
    ServiceError { description: String },
    /// Cooperative cancellation; the operation may be retried.
    Cancelled { description: String },
}

impl OperationError {
    pub fn service_error(description: &str) -> (r: OperationError)
        ensures
            r is ServiceError,
            r->ServiceError_description@ == description@,
    {
        OperationError::ServiceError { description: description.to_owned() }
    }
}

pub type OperationResult<T> = Result<T, OperationError>;

/// Error latch of a segment: while set, operations with a newer op number are
/// rejected until the failed point operation succeeds.
#[derive(Debug)]
pub struct SegmentFailedState {
    pub version: u64,
    pub point_id: Option<PointIdType>,
    pub error: OperationError,
}

/// Collection-level error, as the shard reports it upward.
#[derive(Debug)]
pub enum CollectionError {
    BadInput { description: String },
    NotFound { what: String },
    PointNotFound { missed_point_id: PointIdType },
    ServiceError { error: String, backtrace: Option<String> },
    BadRequest { description: String },
    Cancelled { description: String },
    InconsistentShardFailure { shard_id: u32, first_err: Box<CollectionError> },
    BadShardSelection { description: String },
    ForwardProxyError { peer_id: u64, error: Box<CollectionError> },
}

impl CollectionError {
    pub fn service_error(description: String) -> (r: CollectionError)
        ensures
            r is ServiceError,
            r->ServiceError_error == description,
    {
        CollectionError::ServiceError {
            error: description,
            backtrace: Some(crate::external::capture_backtrace()),
        }
    }
}

pub type CollectionResult<T> = Result<T, CollectionError>;

/// Storage-level error kinds.
#[derive(Debug)]
pub enum StorageError {
    BadInput { description: String },
    NotFound { description: String },
    ServiceError { description: String, backtrace: Option<String> },
    BadRequest { description: String },
    Locked { description: String },
}

/// The storage error kind that a collection error maps to, regardless of the
/// description it will carry.
pub open spec fn spec_storage_kind_of(err: CollectionError) -> StorageError
    decreases err,
{
    match err {
        CollectionError::BadInput { description } => StorageError::BadInput { description },
        CollectionError::NotFound { what } => StorageError::NotFound { description: what },
        CollectionError::PointNotFound { .. } => StorageError::NotFound {
            description: arbitrary(),
        },
        CollectionError::ServiceError { error, backtrace } => StorageError::ServiceError {
            description: error,
            backtrace,
        },
        CollectionError::BadRequest { description } => StorageError::BadRequest { description },
        CollectionError::Cancelled { description } => StorageError::ServiceError {
            description,
            backtrace: None,
        },
        CollectionError::InconsistentShardFailure { shard_id, first_err } => spec_storage_kind_of(
            *first_err,
        ),
        CollectionError::BadShardSelection { description } => StorageError::BadRequest {
            description,
        },
        CollectionError::ForwardProxyError { peer_id, error } => spec_storage_kind_of(*error),
    }
}

/// The description a kind-preserving mapping gives a collection error: the
/// caller's text, with the cancelled marker prefixed for a cancelled
/// operation (recursing through aggregated failures).
pub open spec fn spec_override_desc(err: CollectionError, text: Seq<char>) -> Seq<char>
    decreases err,
{
    match err {
        CollectionError::Cancelled { .. } => "Operation cancelled: "@ + text,
        CollectionError::InconsistentShardFailure { shard_id, first_err } => spec_override_desc(
            *first_err,
            text,
        ),
        CollectionError::ForwardProxyError { peer_id, error } => spec_override_desc(
            *error,
            text,
        ),
        _ => text,
    }
}

/// The backtrace a kind-preserving mapping carries over: the one recorded
/// in the deciding service error, unwrapped through aggregated failures; a
/// cancellation carries none.
pub open spec fn spec_carried_backtrace(err: CollectionError) -> Option<String>
    decreases err,
{
    match err {
        CollectionError::ServiceError { error, backtrace } => backtrace,
        CollectionError::InconsistentShardFailure { shard_id, first_err } => {
            spec_carried_backtrace(*first_err)
        },
        CollectionError::ForwardProxyError { peer_id, error } => spec_carried_backtrace(*error),
        _ => None,
    }
}

/// True when the two errors are the same variant, whatever their payloads.
pub open spec fn same_storage_kind(a: StorageError, b: StorageError) -> bool {
    match (a, b) {
        (StorageError::BadInput { .. }, StorageError::BadInput { .. }) => true,
        (StorageError::NotFound { .. }, StorageError::NotFound { .. }) => true,
        (StorageError::ServiceError { .. }, StorageError::ServiceError { .. }) => true,
        (StorageError::BadRequest { .. }, StorageError::BadRequest { .. }) => true,
        (StorageError::Locked { .. }, StorageError::Locked { .. }) => true,
        _ => false,
    }
}

impl StorageError {
    pub fn service_error(description: &str) -> (r: StorageError)
        ensures
            r is ServiceError,
            r->ServiceError_description@ == description@,
            r->ServiceError_backtrace is Some,
    {
        StorageError::ServiceError {
            description: description.to_owned(),
            backtrace: Some(crate::external::capture_backtrace()),
        }
    }

    pub fn bad_request(description: &str) -> (r: StorageError)
        ensures
            r is BadRequest,
            r->BadRequest_description@ == description@,
    {
        StorageError::BadRequest { description: description.to_owned() }
    }

    pub fn bad_input(description: &str) -> (r: StorageError)
        ensures
            r is BadInput,
            r->BadInput_description@ == description@,
    {
        StorageError::BadInput { description: description.to_owned() }
    }

    /// Maps a collection error to a storage error while overriding the
    /// description: the kind is the collection error's (unwrapping aggregated
    /// shard failures recursively), the text is the caller's.
    pub fn from_inconsistent_shard_failure(
        err: CollectionError,
        overriding_description: String,
    ) -> (r: StorageError)
        ensures
            same_storage_kind(r, spec_storage_kind_of(err)),
            storage_error_desc(r) == spec_override_desc(err, overriding_description@),
            r is ServiceError ==> r->ServiceError_backtrace == spec_carried_backtrace(err),
        decreases err,
    {
        match err {
            CollectionError::BadInput { .. } => StorageError::BadInput {
                description: overriding_description,
            },
            CollectionError::NotFound { .. } => StorageError::NotFound {
                description: overriding_description,
            },
            CollectionError::PointNotFound { .. } => StorageError::NotFound {
                description: overriding_description,
            },
            CollectionError::ServiceError { error: _, backtrace } => {
                StorageError::ServiceError { description: overriding_description, backtrace }
            },
            CollectionError::BadRequest { .. } => StorageError::BadRequest {
                description: overriding_description,
            },
            CollectionError::Cancelled { .. } => {
                let mut text = "Operation cancelled: ".to_owned();
                text.append(overriding_description.as_str());
                StorageError::ServiceError { description: text, backtrace: None }
            },
            CollectionError::InconsistentShardFailure { shard_id: _, first_err } => {
                Self::from_inconsistent_shard_failure(*first_err, overriding_description)
            },
            CollectionError::BadShardSelection { .. } => StorageError::BadRequest {
                description: overriding_description,
            },
            CollectionError::ForwardProxyError { peer_id: _, error } => {
                Self::from_inconsistent_shard_failure(*error, overriding_description)
            },
        }
    }
}

} // verus!

verus! {

/// The description a storage error carries, whatever its kind.
pub open spec fn storage_error_desc(e: StorageError) -> Seq<char> {
    match e {
        StorageError::BadInput { description } => description@,
        StorageError::NotFound { description } => description@,
        StorageError::ServiceError { description, backtrace } => description@,
        StorageError::BadRequest { description } => description@,
        StorageError::Locked { description } => description@,
    }
}

impl StorageError {
    /// Keeps the collection error's kind and carries its own text through;
    /// aggregated shard failures are unwrapped to their first error's kind.
    pub fn from_collection_error(err: CollectionError) -> (r: Self)
        ensures
            same_storage_kind(r, spec_storage_kind_of(err)),
            err is BadInput ==> storage_error_desc(r) == err->BadInput_description@,
            err is NotFound ==> storage_error_desc(r) == err->NotFound_what@,
            err is ServiceError ==> storage_error_desc(r) == err->ServiceError_error@,
            err is BadRequest ==> storage_error_desc(r) == err->BadRequest_description@,
            err is Cancelled ==> storage_error_desc(r) == "Operation cancelled: "@
                + err->Cancelled_description@,
            err is BadShardSelection ==> storage_error_desc(r)
                == err->BadShardSelection_description@,
    {
        match err {
            CollectionError::BadInput { description } => StorageError::BadInput { description },
            CollectionError::NotFound { what } => StorageError::NotFound { description: what },
            CollectionError::PointNotFound { missed_point_id: _ } => StorageError::NotFound {
                description: String::new(),
            },
            CollectionError::ServiceError { error, backtrace } => StorageError::ServiceError {
                description: error,
                backtrace,
            },
            CollectionError::BadRequest { description } => StorageError::BadRequest {
                description,
            },
            CollectionError::Cancelled { description } => {
                let mut text = "Operation cancelled: ".to_owned();
                text.append(description.as_str());
                StorageError::ServiceError { description: text, backtrace: None }
            },
            CollectionError::InconsistentShardFailure { shard_id, first_err } => {
                StorageError::from_inconsistent_shard_failure(*first_err, String::new())
            },
            CollectionError::BadShardSelection { description } => StorageError::BadRequest {
                description,
            },
            CollectionError::ForwardProxyError { peer_id, error } => {
                StorageError::from_inconsistent_shard_failure(*error, String::new())
            },
        }
    }
}

} // verus!
