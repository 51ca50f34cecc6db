//! Core data types of the shard: point identifiers, distances, segment
//! configuration and search options.

use vstd::prelude::*;
use vstd::string::StringSliceAdditionalSpecFns;

verus! {

/// Internal id of a point: a dense offset local to one segment.
pub type PointOffsetType = u32;

/// Monotonic operation number assigned by the update handler.
pub type SeqNumberType = u64;

/// One component of a vector, in fixed-point milli-units: the rational value
/// is `v / 1000`.
pub type VectorElementType = i64;

/// A similarity score; higher is closer. Scores are sums of products of
/// fixed-point components, so they need a wide integer.
pub type ScoreType = i128;

/// Largest magnitude a vector component may have. Keeps every product of two
/// components within `i64` and every score within `i128`.
pub const VECTOR_ELEMENT_BOUND: i64 = 1_000_000_000;

/// Fixed-point scale: number of milli-units in 1.0.
pub const FIXED_POINT_ONE: i64 = 1_000;

/// External identifier of a point: a plain number or a UUID held as its
/// 128-bit value.
#[derive(Clone, Copy, PartialEq, Eq, Structural, Debug, Hash)]
pub enum PointIdType {
    NumId(u64),
    Uuid(u128),
}

/// Total order on external ids: numeric ids first, then UUIDs, each by value.
pub open spec fn point_id_le(a: PointIdType, b: PointIdType) -> bool {
    match (a, b) {
        (PointIdType::NumId(x), PointIdType::NumId(y)) => x <= y,
        (PointIdType::NumId(_), PointIdType::Uuid(_)) => true,
        (PointIdType::Uuid(_), PointIdType::NumId(_)) => false,
        (PointIdType::Uuid(x), PointIdType::Uuid(y)) => x <= y,
    }
}

pub open spec fn point_id_lt(a: PointIdType, b: PointIdType) -> bool {
    point_id_le(a, b) && a != b
}

impl PointIdType {
    /// Executable comparison deciding `point_id_le`.
    pub fn le(&self, other: &PointIdType) -> (r: bool)
        ensures
            r == point_id_le(*self, *other),
    {
        match (self, other) {
            (PointIdType::NumId(x), PointIdType::NumId(y)) => *x <= *y,
            (PointIdType::NumId(_), PointIdType::Uuid(_)) => true,
            (PointIdType::Uuid(_), PointIdType::NumId(_)) => false,
            (PointIdType::Uuid(x), PointIdType::Uuid(y)) => *x <= *y,
        }
    }

    /// Executable comparison deciding `point_id_lt`.
    pub fn lt(&self, other: &PointIdType) -> (r: bool)
        ensures
            r == point_id_lt(*self, *other),
    {
        match (self, other) {
            (PointIdType::NumId(x), PointIdType::NumId(y)) => *x < *y,
            (PointIdType::NumId(_), PointIdType::Uuid(_)) => true,
            (PointIdType::Uuid(_), PointIdType::NumId(_)) => false,
            (PointIdType::Uuid(x), PointIdType::Uuid(y)) => *x < *y,
        }
    }
}

/// Every byte is an ASCII digit.
pub open spec fn spec_all_digits(s: Seq<u8>) -> bool {
    s.len() > 0 && forall|i: int| 0 <= i < s.len() ==> 48 <= (#[trigger] s[i]) <= 57
}

/// The decimal value of an ASCII digit string.
pub open spec fn spec_decimal_value(s: Seq<u8>) -> int
    decreases s.len(),
{
    if s.len() == 0 {
        0
    } else {
        spec_decimal_value(s.drop_last()) * 10 + (s.last() - 48)
    }
}

impl PointIdType {
    /// Reads an external id from its textual form: a decimal number gives
    /// a numeric id; anything else is tried as a UUID.
    #[verifier::loop_isolation(false)]
    pub fn parse(s: &str) -> (r: Option<PointIdType>)
        ensures
            (spec_all_digits(s.spec_bytes()) && spec_decimal_value(s.spec_bytes()) <= u64::MAX
                as int) ==> r == Some(
                PointIdType::NumId(spec_decimal_value(s.spec_bytes()) as u64),
            ),
            !(spec_all_digits(s.spec_bytes()) && spec_decimal_value(s.spec_bytes()) <= u64::MAX
                as int) ==> r == (match crate::external::uuid_of(s@) {
                Some(u) => Some(PointIdType::Uuid(u)),
                None => None::<PointIdType>,
            }),
    {
        let bytes = s.as_bytes();
        let n = bytes.len();
        let mut acc: u64 = 0;
        let mut is_number = n > 0;
        let mut overflow = false;
        let mut i: usize = 0;
        while i < n
            invariant
                0 <= i <= n,
                n == s.spec_bytes().len(),
                bytes@ == s.spec_bytes(),
                is_number == (n > 0 && forall|j: int|
                    0 <= j < i ==> 48 <= (#[trigger] s.spec_bytes()[j]) <= 57),
                (is_number && !overflow) ==> acc as int == spec_decimal_value(
                    s.spec_bytes().subrange(0, i as int),
                ),
                (is_number && overflow) ==> spec_decimal_value(
                    s.spec_bytes().subrange(0, i as int),
                ) > u64::MAX as int,
            decreases n - i,
        {
            let b = bytes[i];
            proof {
                assert(s.spec_bytes().subrange(0, i + 1).drop_last() =~= s.spec_bytes().subrange(
                    0,
                    i as int,
                ));
                assert(s.spec_bytes().subrange(0, i + 1).last() == s.spec_bytes()[i as int]);
            }
            if b < 48 || b > 57 {
                is_number = false;
            } else if is_number {
                let d: u64 = (b - 48) as u64;
                if !overflow {
                    if acc <= (u64::MAX - d) / 10 {
                        proof {
                            assert(acc as int * 10 + d <= u64::MAX as int) by (nonlinear_arith)
                                requires
                                    0 <= acc as int <= ((u64::MAX as int) - d) / 10,
                                    0 <= d <= 9,
                            ;
                        }
                        acc = acc * 10 + d;
                    } else {
                        proof {
                            assert(acc as int * 10 + d > u64::MAX as int) by (nonlinear_arith)
                                requires
                                    acc as int > ((u64::MAX as int) - d) / 10,
                                    0 <= d <= 9,
                            ;
                        }
                        overflow = true;
                    }
                } else {
                    proof {
                        assert(spec_decimal_value(s.spec_bytes().subrange(0, i + 1))
                            > u64::MAX as int) by (nonlinear_arith)
                            requires
                                spec_decimal_value(s.spec_bytes().subrange(0, i as int))
                                    > u64::MAX as int,
                                spec_decimal_value(s.spec_bytes().subrange(0, i + 1))
                                    == spec_decimal_value(
                                    s.spec_bytes().subrange(0, i as int),
                                ) * 10 + (s.spec_bytes()[i as int] - 48),
                                0 <= s.spec_bytes()[i as int] - 48 <= 9,
                        ;
                    }
                }
            }
            i = i + 1;
        }
        proof {
            assert(s.spec_bytes().subrange(0, n as int) =~= s.spec_bytes());
        }
        if is_number && !overflow {
            Some(PointIdType::NumId(acc))
        } else {
            match crate::external::parse_uuid(s) {
                Some(u) => Some(PointIdType::Uuid(u)),
                None => None,
            }
        }
    }
}

impl From<u64> for PointIdType {
    fn from(num: u64) -> (r: Self) {
        PointIdType::NumId(num)
    }
}

impl vstd::std_specs::convert::FromSpecImpl<u64> for PointIdType {
    open spec fn obeys_from_spec() -> bool {
        true
    }

    open spec fn from_spec(num: u64) -> Self {
        PointIdType::NumId(num)
    }
}

/// Distance function of a named vector. Cosine vectors are normalized on
/// insert, after which the dot product is used.
#[derive(Clone, Copy, PartialEq, Eq, Structural, Debug)]
pub enum Distance {
    Dot,
    Cosine,
    Euclid,
    Manhattan,
}

/// What kind of indexes and storages a segment uses.
#[derive(Clone, Copy, PartialEq, Eq, Structural, Debug)]
pub enum SegmentType {
    Plain,
    Indexed,
    Special,
}

/// Configuration of the graph index variant.
#[derive(Clone, Copy, PartialEq, Eq, Structural, Debug)]
pub struct HnswConfig {
    pub m: usize,
    pub ef_construct: usize,
    /// Below this filter cardinality the index pre-filters candidates and
    /// scores them directly instead of walking the graph.
    pub full_scan_threshold: usize,
    pub on_disk: bool,
}

/// Which vector index a segment is built with.
#[derive(Clone, Copy, PartialEq, Eq, Structural, Debug)]
pub enum Indexes {
    Plain,
    Hnsw(HnswConfig),
}

/// Type of vector storage backing a segment.
#[derive(Clone, Copy, PartialEq, Eq, Structural, Debug)]
pub enum StorageType {
    InMemory,
    Mmap,
}

/// Type of payload storage backing a segment.
#[derive(Clone, Copy, PartialEq, Eq, Structural, Debug)]
pub enum PayloadStorageType {
    InMemory,
    OnDisk,
}

/// Per-name vector configuration: dimension and distance.
#[derive(Clone, Copy, PartialEq, Eq, Structural, Debug)]
pub struct VectorDataConfig {
    pub size: usize,
    pub distance: Distance,
}

/// Configuration of one segment.
pub struct SegmentConfig {
    /// Per vector name: dimension and distance. Names are unique.
    pub vector_data: Vec<(String, VectorDataConfig)>,
    pub index: Indexes,
    pub storage_type: StorageType,
    pub payload_storage_type: PayloadStorageType,
}

/// Names in a name-keyed association list are unique.
pub open spec fn vector_names_unique<T>(s: Seq<(String, T)>) -> bool {
    forall|i: int, j: int| 0 <= i < j < s.len() ==> s[i].0@ != s[j].0@
}

/// Dimension and distance recorded for `name`, if the config has it.
pub open spec fn spec_config_of<T>(s: Seq<(String, T)>, name: Seq<char>) -> Option<T>
    decreases s.len(),
{
    if s.len() == 0 {
        None
    } else if s[0].0@ == name {
        Some(s[0].1)
    } else {
        spec_config_of(s.subrange(1, s.len() as int), name)
    }
}

impl SegmentConfig {
    pub open spec fn wf(&self) -> bool {
        &&& vector_names_unique(self.vector_data@)
        &&& forall|i: int|
            0 <= i < self.vector_data@.len() ==> (#[trigger] self.vector_data@[i].1.size) > 0
    }

    /// Configuration of the named vector, or `None` when the name is unknown.
    pub fn config_of(&self, name: &String) -> (r: Option<VectorDataConfig>)
        ensures
            r == spec_config_of(self.vector_data@, name@),
    {
        let n = self.vector_data.len();
        let mut i: usize = 0;
        proof {
            assert(self.vector_data@.subrange(0, n as int) =~= self.vector_data@);
        }
        while i < n
            invariant
                0 <= i <= n,
                n == self.vector_data@.len(),
                spec_config_of(self.vector_data@, name@) == spec_config_of(
                    self.vector_data@.subrange(i as int, n as int),
                    name@,
                ),
            decreases n - i,
        {
            proof {
                assert(self.vector_data@.subrange(i as int, n as int).subrange(
                    1,
                    (n - i) as int,
                ) =~= self.vector_data@.subrange(i + 1, n as int));
            }
            if self.vector_data[i].0 == *name {
                return Some(self.vector_data[i].1);
            }
            i = i + 1;
        }
        None
    }
}

/// Persistent state of a segment, stored beside its data.
pub struct SegmentState {
    pub version: Option<SeqNumberType>,
    pub config: SegmentConfig,
}

/// Whether search results carry the stored payload.
#[derive(Clone, Copy, PartialEq, Eq, Structural, Debug)]
pub struct WithPayload {
    pub enable: bool,
}

impl Default for WithPayload {
    /// Payload is returned by default.
    fn default() -> (r: Self)
        ensures
            r.enable,
    {
        WithPayload { enable: true }
    }
}

/// Whether search results carry vectors: all of them, none, or a named
/// selection.
pub enum WithVector {
    Enable(bool),
    Selector(Vec<String>),
}

/// Extra search-time parameters.
#[derive(Clone, Copy, PartialEq, Eq, Structural, Debug)]
pub struct SearchParams {
    pub hnsw_ef: Option<usize>,
    pub exact: bool,
}

/// A search hit before external-id resolution.
#[derive(Clone, Copy, PartialEq, Eq, Structural, Debug)]
pub struct ScoredPointOffset {
    pub idx: PointOffsetType,
    pub score: ScoreType,
}

} // verus!
