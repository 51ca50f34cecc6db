//! The segment holder: the set of segments of one shard, point routing,
//! fan-out flushing, and deduplication of points that appear in several
//! segments after a load.

use vstd::prelude::*;
use crate::types::{PointIdType, PointOffsetType, SeqNumberType};
use crate::errors::{OperationError, OperationResult};
use crate::segment::{Segment, SegmentSnapshot};

verus! {

/// The set of segments of one shard; a segment's index in the vector is
/// its id.
pub struct SegmentHolder {
    pub segments: Vec<Segment>,
}

/// Whether segment `i` holds the point, in a list of segments.
pub open spec fn spec_seg_has(segs: Seq<Segment>, i: int, e: PointIdType) -> bool {
    0 <= i < segs.len() && segs[i].spec_has_point(e)
}

/// The recorded version of the point in segment `i` (zero when absent,
/// which never matters together with `spec_seg_has`).
pub open spec fn spec_seg_version(segs: Seq<Segment>, i: int, e: PointIdType) -> SeqNumberType {
    match segs[i].spec_point_version(e) {
        Some(v) => v,
        None => 0,
    }
}

/// Segment `i` is the unique keeper of the point: it holds it, and every
/// other copy is strictly older, or as old with a larger index.
pub open spec fn spec_keeps(segs: Seq<Segment>, i: int, e: PointIdType) -> bool {
    &&& spec_seg_has(segs, i, e)
    &&& forall|j: int|
        0 <= j < segs.len() && j != i && spec_seg_has(segs, j, e) ==> (#[trigger] spec_seg_version(
            segs,
            j,
            e,
        ) < spec_seg_version(segs, i, e) || (spec_seg_version(segs, j, e) == spec_seg_version(
            segs,
            i,
            e,
        ) && i < j))
}


/// Whether one of the first `k` links carries the external id.
pub open spec fn spec_listed_in(
    links: Seq<(PointIdType, PointOffsetType)>,
    k: int,
    e: PointIdType,
) -> bool {
    exists|w: int| 0 <= w < k && (#[trigger] links[w]).0 == e
}

/// The live copies the first `k` segments hold, every segment's links
/// counted together.
pub open spec fn spec_total_copies(segs: Seq<Segment>, k: int) -> int
    decreases k,
{
    if k <= 0 {
        0
    } else {
        spec_total_copies(segs, k - 1) + segs[k - 1].id_tracker.spec_links().len()
    }
}

/// Two segment sequences agreeing link-wise on a prefix hold the same
/// number of copies there.
pub proof fn lemma_total_copies_agree(a: Seq<Segment>, b: Seq<Segment>, k: int)
    requires
        forall|j: int| 0 <= j < k ==> (#[trigger] a[j]).id_tracker == b[j].id_tracker,
    ensures
        spec_total_copies(a, k) == spec_total_copies(b, k),
    decreases k,
{
    if k > 0 {
        lemma_total_copies_agree(a, b, k - 1);
    }
}

/// The persisted version a segment reports, an unset one reading as zero.
pub open spec fn spec_seg_persisted(s: Segment) -> SeqNumberType {
    match s.persisted_version {
        Some(v) => v,
        None => 0,
    }
}

impl SegmentHolder {
    pub open spec fn wf(&self) -> bool {
        forall|i: int| 0 <= i < self.segments@.len() ==> (#[trigger] self.segments@[i]).wf()
    }

    pub fn new() -> (r: Self)
        ensures
            r.wf(),
            r.segments@.len() == 0,
    {
        SegmentHolder { segments: Vec::new() }
    }

    /// Adds a segment; its id is its position.
    pub fn add(&mut self, segment: Segment) -> (r: usize)
        requires
            old(self).wf(),
            segment.wf(),
        ensures
            final(self).wf(),
            r == old(self).segments@.len(),
            final(self).segments@ == old(self).segments@.push(segment),
    {
        let id = self.segments.len();
        self.segments.push(segment);
        id
    }

    pub fn len(&self) -> (r: usize)
        ensures
            r == self.segments@.len(),
    {
        self.segments.len()
    }

    /// Index of the segment currently holding the point, if any.
    pub fn segment_of(&self, point_id: &PointIdType) -> (r: Option<usize>)
        requires
            self.wf(),
        ensures
            match r {
                Some(i) => i < self.segments@.len() && self.segments@[i as int].spec_has_point(
                    *point_id,
                ) && (forall|j: int|
                    0 <= j < i ==> !(#[trigger] self.segments@[j]).spec_has_point(*point_id)),
                None => forall|i: int|
                    0 <= i < self.segments@.len() ==> !(#[trigger] self.segments@[i]).spec_has_point(
                        *point_id,
                    ),
            },
    {
        let n = self.segments.len();
        let mut i: usize = 0;
        while i < n
            invariant
                0 <= i <= n,
                n == self.segments@.len(),
                self.wf(),
                forall|j: int|
                    0 <= j < i ==> !(#[trigger] self.segments@[j]).spec_has_point(*point_id),
            decreases n - i,
        {
            if self.segments[i].has_point(*point_id) {
                return Some(i);
            }
            i = i + 1;
        }
        None
    }

    /// Index of the first appendable segment, if any: where new points go.
    pub fn appendable_segment(&self) -> (r: Option<usize>)
        requires
            self.wf(),
        ensures
            match r {
                Some(i) => i < self.segments@.len() && self.segments@[i as int].appendable_flag
                    && (forall|j: int|
                    0 <= j < i ==> !(#[trigger] self.segments@[j]).appendable_flag),
                None => forall|i: int|
                    0 <= i < self.segments@.len() ==> !(#[trigger] self.segments@[i]).appendable_flag,
            },
    {
        let n = self.segments.len();
        let mut i: usize = 0;
        while i < n
            invariant
                0 <= i <= n,
                n == self.segments@.len(),
                forall|j: int| 0 <= j < i ==> !(#[trigger] self.segments@[j]).appendable_flag,
            decreases n - i,
        {
            if self.segments[i].is_appendable() {
                return Some(i);
            }
            i = i + 1;
        }
        None
    }

    /// Flushes every segment; reports the smallest persisted version, the
    /// shard's durable watermark.
    #[verifier::loop_isolation(false)]
    pub fn flush_all(&mut self, sync: bool) -> (r: OperationResult<SeqNumberType>)
        requires
            old(self).wf(),
        ensures
            final(self).wf(),
            r is Ok,
            final(self).segments@.len() == old(self).segments@.len(),
            // The result is the durable watermark: no segment persists
            // less, and some segment persists exactly this much.
            forall|i: int|
                0 <= i < final(self).segments@.len() ==> r->Ok_0 <= spec_seg_persisted(
                    #[trigger] final(self).segments@[i],
                ),
            final(self).segments@.len() > 0 ==> exists|i: int|
                0 <= i < final(self).segments@.len() && r->Ok_0 == spec_seg_persisted(
                    #[trigger] final(self).segments@[i],
                ),
            final(self).segments@.len() == 0 ==> r->Ok_0 == 0,
            forall|i: int|
                0 <= i < final(self).segments@.len()
                    ==> (#[trigger] final(self).segments@[i]).persisted_version == old(
                    self,
                ).segments@[i].version && final(self).segments@[i].version == old(
                    self,
                ).segments@[i].version && final(self).segments@[i].id_tracker == old(
                    self,
                ).segments@[i].id_tracker && final(self).segments@[i].vector_data == old(
                    self,
                ).segments@[i].vector_data && final(self).segments@[i].payload_storage == old(
                    self,
                ).segments@[i].payload_storage,
    {
        let n = self.segments.len();
        let ghost segs0 = self.segments@;
        let mut i: usize = 0;
        while i < n
            invariant
                0 <= i <= n,
                self.segments@.len() == n,
                n == segs0.len(),
                segs0 == old(self).segments@,
                forall|j: int| 0 <= j < n ==> (#[trigger] self.segments@[j]).wf(),
                forall|j: int| i <= j < n ==> #[trigger] self.segments@[j] == segs0[j],
                forall|j: int|
                    0 <= j < i ==> (#[trigger] self.segments@[j]).persisted_version
                        == segs0[j].version && self.segments@[j].version == segs0[j].version
                        && self.segments@[j].id_tracker == segs0[j].id_tracker
                        && self.segments@[j].vector_data == segs0[j].vector_data
                        && self.segments@[j].payload_storage == segs0[j].payload_storage,
            decreases n - i,
        {
            let ghost cur0 = self.segments@;
            let mut seg = self.segments.remove(i);
            let res = seg.flush(sync);
            self.segments.insert(i, seg);
            proof {
                crate::segment::lemma_remove_insert_update(
                    cur0,
                    i as int,
                    self.segments@[i as int],
                );
                assert(self.segments@ =~= cur0.update(i as int, self.segments@[i as int]));
            }
            match res {
                Ok(_) => {},
                Err(e) => {
                    proof {
                        assert(false);
                    }
                },
            }
            i = i + 1;
        }
        // The durable watermark: the smallest persisted version.
        let mut min_v: SeqNumberType = 0;
        let mut started = false;
        let mut k: usize = 0;
        while k < n
            invariant
                0 <= k <= n,
                self.segments@.len() == n,
                started == (k > 0),
                k == 0 ==> min_v == 0,
                forall|j: int|
                    0 <= j < k ==> min_v <= spec_seg_persisted(#[trigger] self.segments@[j]),
                k > 0 ==> exists|j: int|
                    0 <= j < k && min_v == spec_seg_persisted(#[trigger] self.segments@[j]),
            decreases n - k,
        {
            let v = match self.segments[k].persisted_version {
                Some(v) => v,
                None => 0,
            };
            if !started || v < min_v {
                min_v = v;
                started = true;
            }
            k = k + 1;
        }
        Ok(min_v)
    }

    /// Takes a value-level snapshot of every segment, in order.
    #[verifier::loop_isolation(false)]
    pub fn snapshot_all_segments(&mut self) -> (r: OperationResult<Vec<SegmentSnapshot>>)
        requires
            old(self).wf(),
        ensures
            final(self).wf(),
            r is Ok,
            final(self).segments@.len() == old(self).segments@.len(),
            r->Ok_0@.len() == old(self).segments@.len(),
            forall|i: int|
                0 <= i < final(self).segments@.len() ==> crate::segment::spec_snapshot_matches(
                    #[trigger] r->Ok_0@[i],
                    final(self).segments@[i],
                ) && final(self).segments@[i].id_tracker == old(self).segments@[i].id_tracker
                    && final(self).segments@[i].vector_data == old(self).segments@[i].vector_data
                    && final(self).segments@[i].payload_storage == old(
                    self,
                ).segments@[i].payload_storage && final(self).segments@[i].version == old(
                    self,
                ).segments@[i].version,
    {
        let n = self.segments.len();
        let ghost segs0 = self.segments@;
        let mut out: Vec<SegmentSnapshot> = Vec::new();
        let mut i: usize = 0;
        while i < n
            invariant
                0 <= i <= n,
                self.segments@.len() == n,
                n == segs0.len(),
                segs0 == old(self).segments@,
                out@.len() == i,
                forall|j: int| 0 <= j < n ==> (#[trigger] self.segments@[j]).wf(),
                forall|j: int| i <= j < n ==> #[trigger] self.segments@[j] == segs0[j],
                forall|j: int|
                    0 <= j < i ==> crate::segment::spec_snapshot_matches(
                        #[trigger] out@[j],
                        self.segments@[j],
                    ) && self.segments@[j].id_tracker == segs0[j].id_tracker
                        && self.segments@[j].vector_data == segs0[j].vector_data
                        && self.segments@[j].payload_storage == segs0[j].payload_storage
                        && self.segments@[j].version == segs0[j].version,
            decreases n - i,
        {
            let ghost cur0 = self.segments@;
            let mut seg = self.segments.remove(i);
            let res = seg.take_snapshot();
            self.segments.insert(i, seg);
            proof {
                crate::segment::lemma_remove_insert_update(
                    cur0,
                    i as int,
                    self.segments@[i as int],
                );
                assert(self.segments@ =~= cur0.update(i as int, self.segments@[i as int]));
            }
            match res {
                Ok(snap) => {
                    out.push(snap);
                },
                Err(e) => {
                    proof {
                        assert(false);
                    }
                    return Err(e);
                },
            }
            i = i + 1;
        }
        Ok(out)
    }
}


impl SegmentHolder {
    /// Whether some other copy of the point beats the copy in segment `i`:
    /// a strictly newer one, or an equally new one in an earlier segment.
    #[verifier::loop_isolation(false)]
    fn copy_is_dominated(&self, i: usize, e: &PointIdType) -> (r: bool)
        requires
            self.wf(),
            i < self.segments@.len(),
            self.segments@[i as int].spec_has_point(*e),
        ensures
            r == !spec_keeps(self.segments@, i as int, *e),
    {
        let vi = match self.segments[i].point_version(*e) {
            Some(v) => v,
            None => 0,
        };
        let n = self.segments.len();
        let mut j: usize = 0;
        while j < n
            invariant
                0 <= j <= n,
                n == self.segments@.len(),
                vi == spec_seg_version(self.segments@, i as int, *e),
                forall|j2: int|
                    0 <= j2 < j && j2 != i && spec_seg_has(self.segments@, j2, *e) ==> (
                    #[trigger] spec_seg_version(self.segments@, j2, *e) < vi || (spec_seg_version(
                        self.segments@,
                        j2,
                        *e,
                    ) == vi && i < j2)),
            decreases n - j,
        {
            if j != i {
                if self.segments[j].has_point(*e) {
                    let vj = match self.segments[j].point_version(*e) {
                        Some(v) => v,
                        None => 0,
                    };
                    if vj > vi || (vj == vi && j < i) {
                        proof {
                            assert(spec_seg_has(self.segments@, j as int, *e));
                            assert(spec_seg_version(self.segments@, j as int, *e) == vj);
                            assert(!spec_keeps(self.segments@, i as int, *e));
                        }
                        return true;
                    }
                }
            }
            j = j + 1;
        }
        false
    }

    /// Deduplicates points across segments: after the call every external
    /// id lives in exactly one of the segments that held it, always a copy
    /// with the highest recorded version (ties resolved toward the
    /// earliest segment). Returns how many copies were dropped.
    #[verifier::loop_isolation(false)]
    #[verifier::rlimit(60)]
    pub fn deduplicate_points(&mut self) -> (r: OperationResult<usize>)
        requires
            old(self).wf(),
        ensures
            final(self).wf(),
            r is Ok,
            final(self).segments@.len() == old(self).segments@.len(),
            forall|i: int, e: PointIdType|
                #[trigger] spec_seg_has(final(self).segments@, i, e) <==> spec_keeps(
                    old(self).segments@,
                    i,
                    e,
                ),
            forall|i: int, e: PointIdType|
                spec_seg_has(final(self).segments@, i, e)
                    ==> #[trigger] spec_seg_version(final(self).segments@, i, e)
                    == spec_seg_version(old(self).segments@, i, e),
            // The count is the number of dropped copies (the machine's
            // size cap standing in only past it).
            r->Ok_0 as int == (if spec_total_copies(
                old(self).segments@,
                old(self).segments@.len() as int,
            ) - spec_total_copies(final(self).segments@, final(self).segments@.len() as int)
                <= usize::MAX as int {
                spec_total_copies(old(self).segments@, old(self).segments@.len() as int)
                    - spec_total_copies(
                    final(self).segments@,
                    final(self).segments@.len() as int,
                )
            } else {
                usize::MAX as int
            }),
    {
        let ghost segs0 = self.segments@;
        let n = self.segments.len();

        // First pass, read-only: decide for every copy whether a better
        // copy exists elsewhere.
        let mut removals: Vec<Vec<PointIdType>> = Vec::new();
        let mut i: usize = 0;
        while i < n
            invariant
                0 <= i <= n,
                n == self.segments@.len(),
                *self == *old(self),
                removals@.len() == i,
                forall|i2: int, k: int|
                    0 <= i2 < i && 0 <= k < removals@[i2]@.len() ==> spec_seg_has(
                        segs0,
                        i2,
                        (#[trigger] removals@[i2]@[k]),
                    ) && !spec_keeps(segs0, i2, removals@[i2]@[k]),
                forall|i2: int, e: PointIdType|
                    0 <= i2 < i && spec_seg_has(segs0, i2, e) && !spec_keeps(segs0, i2, e)
                        ==> (#[trigger] removals@[i2]@.contains(e)),
                forall|i2: int, a: int, b: int|
                    #![trigger removals@[i2]@[a], removals@[i2]@[b]]
                    0 <= i2 < i && 0 <= a < b < removals@[i2]@.len() ==> removals@[i2]@[a]
                        != removals@[i2]@[b],
            decreases n - i,
        {
            let links = self.segments[i].id_tracker.iter_from(None);
            let m = links.len();
            let mut rem: Vec<PointIdType> = Vec::new();
            let mut k: usize = 0;
            while k < m
                invariant
                    0 <= k <= m,
                    i < n,
                    n == self.segments@.len(),
                    *self == *old(self),
                    m == links@.len(),
                    links@ == self.segments@[i as int].id_tracker.spec_links(),
                    forall|k2: int|
                        0 <= k2 < rem@.len() ==> spec_seg_has(
                            segs0,
                            i as int,
                            (#[trigger] rem@[k2]),
                        ) && !spec_keeps(segs0, i as int, rem@[k2]),
                    forall|k2: int|
                        0 <= k2 < k && !spec_keeps(segs0, i as int, (#[trigger] links@[k2]).0)
                            ==> rem@.contains(links@[k2].0),
                    forall|a: int, b: int|
                        0 <= a < b < rem@.len() ==> rem@[a] != rem@[b],
                    forall|a: int|
                        0 <= a < rem@.len() ==> spec_listed_in(
                            links@,
                            k as int,
                            #[trigger] rem@[a],
                        ),
                decreases m - k,
            {
                let e = links[k].0;
                proof {
                    crate::id_tracker::lemma_index_contains(links@, k as int);
                    crate::id_tracker::lemma_contains_to_lookups(links@, e, links@[k as int].1);
                }
                if self.copy_is_dominated(i, &e) {
                    let ghost rem0 = rem@;
                    rem.push(e);
                    proof {
                        assert forall|k2: int|
                            0 <= k2 < k + 1 && !spec_keeps(
                                segs0,
                                i as int,
                                (#[trigger] links@[k2]).0,
                            ) implies rem@.contains(links@[k2].0) by {
                            if k2 < k {
                                assert(rem0.contains(links@[k2].0));
                                let w = choose|w: int|
                                    0 <= w < rem0.len() && rem0[w] == links@[k2].0;
                                assert(rem@[w] == links@[k2].0);
                            } else {
                                assert(rem@[rem@.len() - 1] == e);
                            }
                        }
                        assert forall|a: int, b: int| 0 <= a < b < rem@.len() implies rem@[a]
                            != rem@[b] by {
                            if b < rem@.len() - 1 {
                                assert(rem0[a] == rem@[a] && rem0[b] == rem@[b]);
                            } else {
                                assert(spec_listed_in(links@, k as int, rem0[a]));
                                let w = choose|w: int|
                                    0 <= w < k && (#[trigger] links@[w]).0 == rem0[a];
                                if rem@[a] == e {
                                    assert(crate::types::point_id_lt(
                                        links@[w].0,
                                        links@[k as int].0,
                                    ));
                                }
                            }
                        }
                        assert forall|a: int| 0 <= a < rem@.len() implies spec_listed_in(
                            links@,
                            k + 1,
                            #[trigger] rem@[a],
                        ) by {
                            if a < rem@.len() - 1 {
                                assert(spec_listed_in(links@, k as int, rem0[a]));
                                let w = choose|w: int|
                                    0 <= w < k && (#[trigger] links@[w]).0 == rem0[a];
                                assert(links@[w].0 == rem@[a]);
                            } else {
                                assert(links@[k as int].0 == rem@[a]);
                            }
                        }
                    }
                }
                k = k + 1;
            }
            proof {
                assert forall|e: PointIdType|
                    spec_seg_has(segs0, i as int, e) && !spec_keeps(segs0, i as int, e)
                        implies rem@.contains(e) by {
                    crate::id_tracker::lemma_link_of_contains(
                        segs0[i as int].id_tracker.spec_links(),
                        e,
                    );
                    let off = segs0[i as int].id_tracker.spec_internal_id(e)->Some_0;
                    let w = choose|w: int|
                        0 <= w < links@.len() && links@[w] == (e, off);
                    assert(!spec_keeps(segs0, i as int, (links@[w]).0));
                }
            }
            removals.push(rem);
            i = i + 1;
        }

        // Second pass: drop every dominated copy.
        let mut dropped: usize = 0;
        let mut i2: usize = 0;
        while i2 < n
            invariant
                0 <= i2 <= n,
                n == self.segments@.len(),
                removals@.len() == n,
                segs0 == old(self).segments@,
                forall|j: int| 0 <= j < n ==> (#[trigger] self.segments@[j]).wf(),
                forall|j: int| i2 <= j < n ==> #[trigger] self.segments@[j] == segs0[j],
                forall|j: int, k: int|
                    0 <= j < n && 0 <= k < removals@[j]@.len() ==> spec_seg_has(
                        segs0,
                        j,
                        (#[trigger] removals@[j]@[k]),
                    ) && !spec_keeps(segs0, j, removals@[j]@[k]),
                forall|j: int, e: PointIdType|
                    0 <= j < n && spec_seg_has(segs0, j, e) && !spec_keeps(segs0, j, e)
                        ==> (#[trigger] removals@[j]@.contains(e)),
                forall|j: int, e: PointIdType|
                    0 <= j < i2 ==> ((#[trigger] spec_seg_has(self.segments@, j, e))
                        <==> spec_keeps(segs0, j, e)),
                forall|j: int, e: PointIdType|
                    0 <= j < i2 && spec_seg_has(self.segments@, j, e)
                        ==> #[trigger] spec_seg_version(self.segments@, j, e)
                        == spec_seg_version(segs0, j, e),
                dropped as int == (if spec_total_copies(segs0, i2 as int) - spec_total_copies(
                    self.segments@,
                    i2 as int,
                ) <= usize::MAX as int {
                    spec_total_copies(segs0, i2 as int) - spec_total_copies(
                        self.segments@,
                        i2 as int,
                    )
                } else {
                    usize::MAX as int
                }),
            decreases n - i2,
        {
            let rem = &removals[i2];
            let m2 = rem.len();
            let ghost segs_outer = self.segments@;
            let mut k2: usize = 0;
            while k2 < m2
                invariant
                    0 <= k2 <= m2,
                    i2 < n,
                    n == self.segments@.len(),
                    removals@.len() == n,
                    m2 == removals@[i2 as int]@.len(),
                    rem == &removals[i2 as int],
                    segs_outer.len() == n,
                    segs_outer[i2 as int] == segs0[i2 as int],
                    forall|j: int| 0 <= j < n ==> (#[trigger] self.segments@[j]).wf(),
                    forall|j: int|
                        0 <= j < n && j != i2 ==> #[trigger] self.segments@[j] == segs_outer[j],
                    forall|j: int, e: PointIdType|
                        0 <= j < i2 ==> ((#[trigger] spec_seg_has(segs_outer, j, e))
                            <==> spec_keeps(segs0, j, e)),
                    forall|j: int, e: PointIdType|
                        0 <= j < i2 && spec_seg_has(segs_outer, j, e)
                            ==> #[trigger] spec_seg_version(segs_outer, j, e)
                            == spec_seg_version(segs0, j, e),
                    forall|j: int| i2 < j < n ==> #[trigger] self.segments@[j] == segs0[j],
                    // The segment being cleaned: every point outside the
                    // first k2 removal entries is as it was; those entries
                    // are gone.
                    forall|e: PointIdType|
                        !removals@[i2 as int]@.subrange(0, k2 as int).contains(e)
                            ==> #[trigger] self.segments@[i2 as int].id_tracker.spec_internal_id(
                            e,
                        ) == segs0[i2 as int].id_tracker.spec_internal_id(e)
                            && self.segments@[i2 as int].spec_point_version(e)
                            == segs0[i2 as int].spec_point_version(e),
                    forall|e: PointIdType|
                        removals@[i2 as int]@.subrange(0, k2 as int).contains(e)
                            ==> !(#[trigger] self.segments@[i2 as int].spec_has_point(e)),
                    self.segments@[i2 as int].id_tracker.spec_links().len() as int == segs0[
                        i2 as int
                    ].id_tracker.spec_links().len() - k2,
                    dropped as int == (if spec_total_copies(segs0, i2 as int)
                        - spec_total_copies(segs_outer, i2 as int) + k2 <= usize::MAX as int {
                        spec_total_copies(segs0, i2 as int) - spec_total_copies(
                            segs_outer,
                            i2 as int,
                        ) + k2
                    } else {
                        usize::MAX as int
                    }),
                decreases m2 - k2,
            {
                let e = rem[k2];
                let ghost cur0 = self.segments@;
                let mut seg = self.segments.remove(i2);
                let was = seg.remove_point_data(e);
                self.segments.insert(i2, seg);
                proof {
                    crate::segment::lemma_remove_insert_update(
                        cur0,
                        i2 as int,
                        self.segments@[i2 as int],
                    );
                    assert(self.segments@ =~= cur0.update(i2 as int, self.segments@[i2 as int]));
                    let pre = removals@[i2 as int]@.subrange(0, k2 as int);
                    let pre1 = removals@[i2 as int]@.subrange(0, k2 + 1);
                    assert forall|e2: PointIdType| !pre1.contains(e2)
                        implies #[trigger] self.segments@[i2 as int].id_tracker.spec_internal_id(
                        e2,
                    ) == segs0[i2 as int].id_tracker.spec_internal_id(e2)
                        && self.segments@[i2 as int].spec_point_version(e2)
                        == segs0[i2 as int].spec_point_version(e2) by {
                        assert(!pre.contains(e2)) by {
                            if pre.contains(e2) {
                                let w = choose|w: int| 0 <= w < pre.len() && pre[w] == e2;
                                assert(pre1[w] == e2);
                            }
                        }
                        assert(e2 != e) by {
                            assert(pre1[k2 as int] == e);
                        }
                    }
                    assert forall|e2: PointIdType| pre1.contains(e2)
                        implies !(#[trigger] self.segments@[i2 as int].spec_has_point(e2)) by {
                        let w = choose|w: int| 0 <= w < pre1.len() && pre1[w] == e2;
                        if w < k2 as int {
                            assert(pre[w] == e2);
                            assert(!cur0[i2 as int].spec_has_point(e2)) by {
                                assert(pre.contains(e2));
                            }
                            assert(e2 != e || !self.segments@[i2 as int].spec_has_point(e2));
                        } else {
                            assert(e2 == e);
                        }
                    }
                }
                proof {
                    let full = removals@[i2 as int]@;
                    let pre = full.subrange(0, k2 as int);
                    assert(!pre.contains(e)) by {
                        if pre.contains(e) {
                            let a = choose|a: int| 0 <= a < pre.len() && pre[a] == e;
                            assert(full[a] == e);
                            assert(full[k2 as int] == e);
                        }
                    }
                    assert(cur0[i2 as int].id_tracker.spec_internal_id(e) == segs0[
                        i2 as int
                    ].id_tracker.spec_internal_id(e));
                    assert(spec_seg_has(segs0, i2 as int, e));
                    assert(was);
                }
                if was && dropped < usize::MAX {
                    dropped = dropped + 1;
                }
                k2 = k2 + 1;
            }
            proof {
                let full = removals@[i2 as int]@;
                assert(full.subrange(0, m2 as int) =~= full);
                assert forall|e: PointIdType| #[trigger] spec_seg_has(
                    self.segments@,
                    i2 as int,
                    e,
                ) <==> spec_keeps(segs0, i2 as int, e) by {
                    if full.contains(e) {
                        assert(!self.segments@[i2 as int].spec_has_point(e));
                        assert(!spec_keeps(segs0, i2 as int, e));
                    } else {
                        assert(self.segments@[i2 as int].id_tracker.spec_internal_id(e)
                            == segs0[i2 as int].id_tracker.spec_internal_id(e));
                        if spec_seg_has(segs0, i2 as int, e) && !spec_keeps(segs0, i2 as int, e) {
                            assert(full.contains(e));
                        }
                    }
                }
                assert forall|e: PointIdType|
                    spec_seg_has(self.segments@, i2 as int, e)
                        implies #[trigger] spec_seg_version(self.segments@, i2 as int, e)
                        == spec_seg_version(segs0, i2 as int, e) by {
                    assert(!full.contains(e)) by {
                        if full.contains(e) {
                            assert(!self.segments@[i2 as int].spec_has_point(e));
                        }
                    }
                    assert(self.segments@[i2 as int].id_tracker.spec_internal_id(e)
                        == segs0[i2 as int].id_tracker.spec_internal_id(e)
                        && self.segments@[i2 as int].spec_point_version(e)
                        == segs0[i2 as int].spec_point_version(e));
                }
                assert forall|j: int, e: PointIdType|
                    0 <= j < i2 + 1 implies ((#[trigger] spec_seg_has(self.segments@, j, e))
                        <==> spec_keeps(segs0, j, e)) by {
                    if j < i2 {
                        assert(self.segments@[j] == segs_outer[j]);
                        assert(spec_seg_has(segs_outer, j, e) <==> spec_keeps(segs0, j, e));
                        assert(spec_seg_has(self.segments@, j, e) == spec_seg_has(
                            segs_outer,
                            j,
                            e,
                        ));
                    } else {
                        assert(spec_seg_has(self.segments@, i2 as int, e) <==> spec_keeps(
                            segs0,
                            i2 as int,
                            e,
                        ));
                    }
                }
                assert forall|j: int, e: PointIdType|
                    0 <= j < i2 + 1 && spec_seg_has(self.segments@, j, e)
                        implies #[trigger] spec_seg_version(self.segments@, j, e)
                        == spec_seg_version(segs0, j, e) by {
                    if j < i2 {
                        assert(self.segments@[j] == segs_outer[j]);
                        assert(spec_seg_has(segs_outer, j, e));
                        assert(spec_seg_version(segs_outer, j, e) == spec_seg_version(
                            segs0,
                            j,
                            e,
                        ));
                        assert(spec_seg_version(self.segments@, j, e) == spec_seg_version(
                            segs_outer,
                            j,
                            e,
                        ));
                    } else {
                        assert(spec_seg_version(self.segments@, i2 as int, e)
                            == spec_seg_version(segs0, i2 as int, e));
                    }
                }
                // The count moved by exactly this segment's removals.
                lemma_total_copies_agree(self.segments@, segs_outer, i2 as int);
                assert(spec_total_copies(segs0, i2 + 1) == spec_total_copies(segs0, i2 as int)
                    + segs0[i2 as int].id_tracker.spec_links().len());
                assert(spec_total_copies(self.segments@, i2 + 1) == spec_total_copies(
                    self.segments@,
                    i2 as int,
                ) + self.segments@[i2 as int].id_tracker.spec_links().len());
            }
            i2 = i2 + 1;
        }
        Ok(dropped)
    }
}

} // verus!
