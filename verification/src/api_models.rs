//! Plain data shapes of the service boundary: version reporting, response
//! status, collection listings and the query parameters of the update and
//! snapshot endpoints.

use vstd::prelude::*;

verus! {

/// The name and version the service reports about itself.
pub struct VersionInfo {
    pub title: String,
    pub version: String,
}

impl Default for VersionInfo {
    /// The service title and the layout version of this build.
    fn default() -> (r: Self)
        ensures
            r.title@ == "vector search engine"@,
            r.version@ == "0.4.0"@,
    {
        VersionInfo {
            title: "vector search engine".to_owned(),
            version: crate::segment_constructor::SegmentVersion::current(),
        }
    }
}

/// Outcome marker of an API response.
pub enum ApiStatus {
    Success,
    Error(String),
    Accepted,
}

/// One collection, as the listing endpoint reports it.
pub struct CollectionDescription {
    pub name: String,
}

/// The collection listing.
pub struct CollectionsResponse {
    pub collections: Vec<CollectionDescription>,
}

/// Query parameters of the update endpoints.
pub struct UpdateParam {
    pub wait: Option<bool>,
}

/// Query parameters of the snapshot endpoints.
pub struct SnapshottingParam {
    pub wait: Option<bool>,
}

} // verus!
