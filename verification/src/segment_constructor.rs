//! Building, loading and naming segments: empty segments from a
//! configuration, version-compatibility checks on load, and the migration
//! of the legacy single-vector state layout.

use vstd::prelude::*;
use crate::types::{
    SegmentConfig, SegmentState, SegmentType, StorageType, Indexes, SeqNumberType,
    VectorDataConfig, PayloadStorageType, Distance,
};
use crate::errors::{OperationError, OperationResult};
use crate::segment::{Segment, VectorData, duplicate_config};
use crate::id_tracker::SimpleIdTracker;
use crate::payload_storage::SimplePayloadStorage;
use crate::payload_index::StructPayloadIndex;
use crate::vector_storage::SimpleVectorStorage;
use crate::vector_index::VectorIndexEnum;
use crate::external::{parse_version, semver_of, new_random_uuid, format_uuid};

verus! {

/// Name of the segment state file beside the data.
pub fn segment_state_file() -> (r: String)
    ensures
        r@ == "segment.json"@,
{
    "segment.json".to_owned()
}

/// Version marker of the on-disk segment layout this build writes.
pub struct SegmentVersion {
}

impl SegmentVersion {
    /// The layout version of this build.
    pub fn current() -> (r: String)
        ensures
            r@ == "0.4.0"@,
    {
        "0.4.0".to_owned()
    }
}

/// `prefix` for the unnamed default vector, `prefix-name` otherwise.
pub fn get_vector_name_with_prefix(prefix: &str, vector_name: &String) -> (r: String)
    ensures
        vector_name@.len() == 0 ==> r@ == prefix@,
        vector_name@.len() > 0 ==> r@ == prefix@ + "-"@ + vector_name@,
{
    if !vector_name.as_str().is_empty() {
        let mut s = prefix.to_owned();
        s.append("-");
        s.append(vector_name.as_str());
        s
    } else {
        prefix.to_owned()
    }
}

/// Directory name of a named vector's storage inside a segment directory.
pub fn get_vector_storage_path(vector_name: &String) -> (r: String)
    ensures
        vector_name@.len() == 0 ==> r@ == "vector_storage"@,
        vector_name@.len() > 0 ==> r@ == "vector_storage"@ + "-"@ + vector_name@,
{
    get_vector_name_with_prefix("vector_storage", vector_name)
}

/// Directory name of a named vector's index inside a segment directory.
pub fn get_vector_index_path(vector_name: &String) -> (r: String)
    ensures
        vector_name@.len() == 0 ==> r@ == "vector_index"@,
        vector_name@.len() > 0 ==> r@ == "vector_index"@ + "-"@ + vector_name@,
{
    get_vector_name_with_prefix("vector_index", vector_name)
}

/// Builds the in-memory segment structure for a configuration: one storage
/// and one index per configured vector name, empty stores, the given
/// version.
#[verifier::loop_isolation(false)]
pub fn create_segment(
    version: Option<SeqNumberType>,
    config: &SegmentConfig,
) -> (r: OperationResult<Segment>)
    requires
        config.wf(),
    ensures
        r is Ok ==> ({
            let seg = r->Ok_0;
            &&& seg.wf()
            &&& seg.version == version
            &&& seg.persisted_version == version
            &&& seg.id_tracker.spec_links().len() == 0
            &&& seg.segment_config.vector_data@ == config.vector_data@
            &&& seg.segment_config.index == config.index
            &&& seg.error_status is None
            &&& seg.segment_type == (match config.index {
                Indexes::Plain => SegmentType::Plain,
                Indexes::Hnsw(_) => SegmentType::Indexed,
            })
            &&& seg.appendable_flag == (config.index is Plain && config.storage_type
                is InMemory)
        }),
        r is Ok,
{
    let n = config.vector_data.len();
    let mut vector_data: Vec<(String, VectorData)> = Vec::new();
    let mut i: usize = 0;
    while i < n
        invariant
            0 <= i <= n,
            n == config.vector_data@.len(),
            vector_data@.len() == i,
            forall|j: int|
                0 <= j < i ==> (#[trigger] vector_data@[j]).0@ == config.vector_data@[j].0@
                    && vector_data@[j].1.vector_storage.wf()
                    && vector_data@[j].1.vector_storage.dim == config.vector_data@[j].1.size
                    && vector_data@[j].1.vector_storage.distance
                    == config.vector_data@[j].1.distance
                    && vector_data@[j].1.vector_storage.spec_count() == 0,
        decreases n - i,
    {
        let name = config.vector_data[i].0.clone();
        let cfg = config.vector_data[i].1;
        let storage = SimpleVectorStorage::new(cfg.size, cfg.distance);
        let index = match config.index {
            Indexes::Plain => VectorIndexEnum::new_plain(),
            Indexes::Hnsw(hnsw) => VectorIndexEnum::new_hnsw(hnsw),
        };
        vector_data.push((name, VectorData { vector_storage: storage, vector_index: index }));
        i = i + 1;
    }
    let segment_type = match config.index {
        Indexes::Plain => SegmentType::Plain,
        Indexes::Hnsw(_) => SegmentType::Indexed,
    };
    let appendable_flag = matches!(config.index, Indexes::Plain) && matches!(
        config.storage_type,
        StorageType::InMemory,
    );
    Ok(
        Segment {
            version,
            persisted_version: version,
            id_tracker: SimpleIdTracker::new(),
            vector_data,
            payload_storage: SimplePayloadStorage::new(),
            payload_index: StructPayloadIndex::new(),
            appendable_flag,
            segment_type,
            segment_config: duplicate_config(config),
            error_status: None,
            persisted_state: None,
        },
    )
}

/// Builds a fresh empty segment and the directory name it would live
/// under: a newly drawn UUID.
pub fn build_segment(config: &SegmentConfig) -> (r: OperationResult<(Segment, String)>)
    requires
        config.wf(),
    ensures
        r is Ok,
        r is Ok ==> r->Ok_0.0.wf() && r->Ok_0.0.version is None
            && r->Ok_0.0.id_tracker.spec_links().len() == 0 && r->Ok_0.1@.len() == 36,
{
    let id_value = new_random_uuid();
    let dir_name = format_uuid(id_value);
    match create_segment(None, config) {
        Ok(seg) => Ok((seg, dir_name)),
        Err(e) => Err(e),
    }
}

/// Decides whether a stored segment's layout version can be opened by this
/// build: malformed versions and versions newer than the application are
/// rejected, as are layouts older than the oldest migratable line.
pub open spec fn spec_version_compatible(
    stored: Option<(u64, u64, u64)>,
    app: Option<(u64, u64, u64)>,
) -> bool {
    &&& stored is Some
    &&& app is Some
    &&& {
        let s = stored->Some_0;
        let a = app->Some_0;
        &&& !spec_version_newer(s, a)
        &&& !(s.0 == 0 && s.1 < 3)
    }
}

/// Strictly newer, by major then minor then patch.
pub open spec fn spec_version_newer(a: (u64, u64, u64), b: (u64, u64, u64)) -> bool {
    ||| a.0 > b.0
    ||| (a.0 == b.0 && a.1 > b.1)
    ||| (a.0 == b.0 && a.1 == b.1 && a.2 > b.2)
}

/// Checks a stored layout version against the application's: data written
/// by a newer application, a pre-migration layout, or an unreadable version
/// string cannot be opened.
pub fn check_version_compatibility(stored_version: &str, app_version: &str) -> (r:
    OperationResult<()>)
    ensures
        r is Ok <==> spec_version_compatible(semver_of(stored_version@), semver_of(app_version@)),
        r is Err ==> r->Err_0 is ServiceError,
{
    let stored = match parse_version(stored_version) {
        Some(v) => v,
        None => {
            return Err(
                OperationError::ServiceError {
                    description: "stored segment version is not a semantic version".to_owned(),
                },
            );
        },
    };
    let app = match parse_version(app_version) {
        Some(v) => v,
        None => {
            return Err(
                OperationError::ServiceError {
                    description: "application version is not a semantic version".to_owned(),
                },
            );
        },
    };
    let newer = stored.0 > app.0 || (stored.0 == app.0 && stored.1 > app.1) || (stored.0 == app.0
        && stored.1 == app.1 && stored.2 > app.2);
    if newer {
        return Err(
            OperationError::ServiceError {
                description: "stored data is newer than this application".to_owned(),
            },
        );
    }
    if stored.0 == 0 && stored.1 < 3 {
        return Err(
            OperationError::ServiceError {
                description: "stored segment layout is too old to migrate".to_owned(),
            },
        );
    }
    Ok(())
}

/// Rebuilds a segment from a stored state whose layout version was
/// recorded beside it. A version file that fails the compatibility check
/// rejects the segment; a missing version file yields no segment, as an
/// interrupted build would.
pub fn load_segment(stored_version: Option<&String>, state: &SegmentState) -> (r:
    OperationResult<Option<Segment>>)
    requires
        state.config.wf(),
    ensures
        stored_version is None ==> r == Ok::<Option<Segment>, OperationError>(None),
        (stored_version is Some && !spec_version_compatible(
            semver_of(stored_version->Some_0@),
            semver_of("0.4.0"@),
        )) ==> r is Err,
        (stored_version is Some && spec_version_compatible(
            semver_of(stored_version->Some_0@),
            semver_of("0.4.0"@),
        )) ==> r is Ok && r->Ok_0 is Some && ({
            let seg = r->Ok_0->Some_0;
            &&& seg.wf()
            &&& seg.version == state.version
            &&& seg.segment_config.vector_data@ == state.config.vector_data@
        }),
{
    let stored = match stored_version {
        Some(s) => s,
        None => {
            return Ok(None);
        },
    };
    let app = SegmentVersion::current();
    match check_version_compatibility(stored.as_str(), app.as_str()) {
        Ok(_) => {},
        Err(e) => {
            return Err(e);
        },
    }
    match create_segment(state.version, &state.config) {
        Ok(seg) => Ok(Some(seg)),
        Err(e) => Err(e),
    }
}

/// The legacy single-vector segment state, as older layouts stored it.
pub struct ObsoleteSegmentConfig {
    pub vector_size: usize,
    pub distance: Distance,
    pub index: Indexes,
    pub storage_type: StorageType,
    pub payload_storage_type: PayloadStorageType,
}

/// The legacy state file: a mandatory version and the single-vector
/// configuration.
pub struct ObsoleteSegmentState {
    pub version: SeqNumberType,
    pub config: ObsoleteSegmentConfig,
}

/// Migrates a legacy single-vector state to the named-vector layout: the
/// one vector becomes the unnamed default vector.
pub fn load_segment_state_v3(obsolete: &ObsoleteSegmentState) -> (r: SegmentState)
    ensures
        r.version == Some(obsolete.version),
        r.config.vector_data@.len() == 1,
        r.config.vector_data@[0].0@ == Seq::<char>::empty(),
        r.config.vector_data@[0].1.size == obsolete.config.vector_size,
        r.config.vector_data@[0].1.distance == obsolete.config.distance,
        r.config.index == obsolete.config.index,
        r.config.storage_type == obsolete.config.storage_type,
        r.config.payload_storage_type == obsolete.config.payload_storage_type,
        obsolete.config.vector_size > 0 ==> r.config.wf(),
{
    let mut vector_data: Vec<(String, VectorDataConfig)> = Vec::new();
    vector_data.push(
        (
            String::new(),
            VectorDataConfig { size: obsolete.config.vector_size, distance: obsolete.config.distance },
        ),
    );
    SegmentState {
        version: Some(obsolete.version),
        config: SegmentConfig {
            vector_data,
            index: obsolete.config.index,
            storage_type: obsolete.config.storage_type,
            payload_storage_type: obsolete.config.payload_storage_type,
        },
    }
}

} // verus!
