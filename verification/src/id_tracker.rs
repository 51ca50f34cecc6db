//! Id tracker of a segment: a bidirectional map between external point ids
//! and dense internal offsets, with a per-point version.
//!
//! The live links are one sorted association list (ascending by external id),
//! so iteration in external order is the list itself. Dropping a point
//! removes its link; the internal offset stays allocated (a tombstone) until
//! the segment is rebuilt.

use vstd::prelude::*;
use crate::types::{PointIdType, PointOffsetType, SeqNumberType, point_id_lt, point_id_le};
use crate::errors::{OperationError, OperationResult};

verus! {

/// Links are strictly ascending by external id.
pub open spec fn sorted_by_ext(s: Seq<(PointIdType, PointOffsetType)>) -> bool {
    forall|i: int, j: int| 0 <= i < j < s.len() ==> point_id_lt(s[i].0, s[j].0)
}

/// No two links share an internal offset.
pub open spec fn ints_unique(s: Seq<(PointIdType, PointOffsetType)>) -> bool {
    forall|i: int, j: int| 0 <= i < j < s.len() ==> s[i].1 != s[j].1
}

/// Internal offset linked to external id `e`, if any.
pub open spec fn link_of(s: Seq<(PointIdType, PointOffsetType)>, e: PointIdType) -> Option<
    PointOffsetType,
>
    decreases s.len(),
{
    if s.len() == 0 {
        None
    } else if s[0].0 == e {
        Some(s[0].1)
    } else {
        link_of(s.subrange(1, s.len() as int), e)
    }
}

/// External id linked to internal offset `i`, if any.
pub open spec fn ext_of(s: Seq<(PointIdType, PointOffsetType)>, i: PointOffsetType) -> Option<
    PointIdType,
>
    decreases s.len(),
{
    if s.len() == 0 {
        None
    } else if s[0].1 == i {
        Some(s[0].0)
    } else {
        ext_of(s.subrange(1, s.len() as int), i)
    }
}

pub proof fn lemma_link_of_contains(s: Seq<(PointIdType, PointOffsetType)>, e: PointIdType)
    ensures
        link_of(s, e) is Some ==> s.contains((e, link_of(s, e)->Some_0)),
        link_of(s, e) is None ==> forall|k: int| 0 <= k < s.len() ==> (#[trigger] s[k]).0 != e,
    decreases s.len(),
{
    if s.len() > 0 {
        lemma_link_of_contains(s.subrange(1, s.len() as int), e);
        if s[0].0 == e {
            assert(s[0] == (e, link_of(s, e)->Some_0));
        } else {
            let t = s.subrange(1, s.len() as int);
            if link_of(s, e) is Some {
                assert(t.contains((e, link_of(s, e)->Some_0)));
                let k = choose|k: int| 0 <= k < t.len() && t[k] == (e, link_of(s, e)->Some_0);
                assert(s[k + 1] == t[k]);
            } else {
                assert forall|k: int| 0 <= k < s.len() implies (#[trigger] s[k]).0 != e by {
                    if k > 0 {
                        assert(s[k] == t[k - 1]);
                    }
                }
            }
        }
    }
}

pub proof fn lemma_ext_of_contains(s: Seq<(PointIdType, PointOffsetType)>, i: PointOffsetType)
    ensures
        ext_of(s, i) is Some ==> s.contains((ext_of(s, i)->Some_0, i)),
        ext_of(s, i) is None ==> forall|k: int| 0 <= k < s.len() ==> (#[trigger] s[k]).1 != i,
    decreases s.len(),
{
    if s.len() > 0 {
        lemma_ext_of_contains(s.subrange(1, s.len() as int), i);
        if s[0].1 == i {
        } else {
            let t = s.subrange(1, s.len() as int);
            if ext_of(s, i) is Some {
                assert(t.contains((ext_of(s, i)->Some_0, i)));
                let k = choose|k: int| 0 <= k < t.len() && t[k] == (ext_of(s, i)->Some_0, i);
                assert(s[k + 1] == t[k]);
            } else {
                assert forall|k: int| 0 <= k < s.len() implies (#[trigger] s[k]).1 != i by {
                    if k > 0 {
                        assert(s[k] == t[k - 1]);
                    }
                }
            }
        }
    }
}

/// A link present in a sorted, internally unique list is the one both
/// lookups find.
pub proof fn lemma_contains_to_lookups(
    s: Seq<(PointIdType, PointOffsetType)>,
    e: PointIdType,
    i: PointOffsetType,
)
    requires
        sorted_by_ext(s),
        ints_unique(s),
        s.contains((e, i)),
    ensures
        link_of(s, e) == Some(i),
        ext_of(s, i) == Some(e),
    decreases s.len(),
{
    let k = choose|k: int| 0 <= k < s.len() && s[k] == (e, i);
    if k == 0 {
    } else {
        let t = s.subrange(1, s.len() as int);
        assert(t[k - 1] == s[k]);
        assert(t.contains((e, i)));
        assert(sorted_by_ext(t)) by {
            assert(forall|a: int, b: int|
                0 <= a < b < t.len() ==> t[a] == s[a + 1] && t[b] == s[b + 1]);
        }
        assert(ints_unique(t)) by {
            assert(forall|a: int, b: int|
                0 <= a < b < t.len() ==> t[a] == s[a + 1] && t[b] == s[b + 1]);
        }
        lemma_contains_to_lookups(t, e, i);
        assert(s[0].0 != e) by {
            assert(point_id_lt(s[0].0, s[k].0));
        }
        assert(s[0].1 != i) by {
            assert(s[0].1 != s[k].1);
        }
    }
}


/// Any indexed pair is contained in its sequence.
pub proof fn lemma_index_contains(s: Seq<(PointIdType, PointOffsetType)>, k: int)
    requires
        0 <= k < s.len(),
    ensures
        s.contains((s[k].0, s[k].1)),
{
    assert((s[k].0, s[k].1) == s[k]);
    assert(s.contains(s[k]));
}

/// Bidirectional id map of one segment.
pub struct SimpleIdTracker {
    /// Live links, strictly ascending by external id.
    pub links: Vec<(PointIdType, PointOffsetType)>,
    /// Per allocated internal offset: the version of the last applied
    /// operation, or `None` before any is recorded.
    pub versions: Vec<Option<SeqNumberType>>,
}

impl SimpleIdTracker {
    /// Well-formedness: links sorted and internally unique, every linked
    /// offset allocated.
    pub open spec fn wf(&self) -> bool {
        &&& sorted_by_ext(self.links@)
        &&& ints_unique(self.links@)
        &&& forall|k: int|
            0 <= k < self.links@.len() ==> (#[trigger] self.links@[k]).1 < self.versions@.len()
    }

    pub open spec fn spec_links(&self) -> Seq<(PointIdType, PointOffsetType)> {
        self.links@
    }

    pub open spec fn spec_internal_id(&self, e: PointIdType) -> Option<PointOffsetType> {
        link_of(self.links@, e)
    }

    pub open spec fn spec_external_id(&self, i: PointOffsetType) -> Option<PointIdType> {
        ext_of(self.links@, i)
    }

    pub open spec fn spec_version_of(&self, i: PointOffsetType) -> Option<SeqNumberType> {
        if i < self.versions@.len() {
            self.versions@[i as int]
        } else {
            None
        }
    }

    pub open spec fn spec_points_count(&self) -> nat {
        self.links@.len()
    }

    pub open spec fn spec_internal_size(&self) -> nat {
        self.versions@.len()
    }

    /// The point is live: it has an external id.
    pub open spec fn spec_is_live(&self, i: PointOffsetType) -> bool {
        ext_of(self.links@, i) is Some
    }

    pub fn new() -> (r: Self)
        ensures
            r.wf(),
            r.spec_links().len() == 0,
            r.spec_internal_size() == 0,
    {
        SimpleIdTracker { links: Vec::new(), versions: Vec::new() }
    }

    /// Internal offset of an external id.
    #[verifier::loop_isolation(false)]
    pub fn internal_id(&self, external_id: &PointIdType) -> (r: Option<PointOffsetType>)
        ensures
            r == self.spec_internal_id(*external_id),
    {
        let n = self.links.len();
        let mut k: usize = 0;
        proof {
            assert(self.links@.subrange(0, n as int) =~= self.links@);
        }
        while k < n
            invariant
                0 <= k <= n,
                n == self.links@.len(),
                link_of(self.links@, *external_id) == link_of(
                    self.links@.subrange(k as int, n as int),
                    *external_id,
                ),
            decreases n - k,
        {
            proof {
                assert(self.links@.subrange(k as int, n as int).subrange(1, (n - k) as int)
                    =~= self.links@.subrange(k + 1, n as int));
            }
            if self.links[k].0 == *external_id {
                return Some(self.links[k].1);
            }
            k = k + 1;
        }
        None
    }

    /// External id of an internal offset.
    #[verifier::loop_isolation(false)]
    pub fn external_id(&self, internal_id: PointOffsetType) -> (r: Option<PointIdType>)
        ensures
            r == self.spec_external_id(internal_id),
    {
        let n = self.links.len();
        let mut k: usize = 0;
        proof {
            assert(self.links@.subrange(0, n as int) =~= self.links@);
        }
        while k < n
            invariant
                0 <= k <= n,
                n == self.links@.len(),
                ext_of(self.links@, internal_id) == ext_of(
                    self.links@.subrange(k as int, n as int),
                    internal_id,
                ),
            decreases n - k,
        {
            proof {
                assert(self.links@.subrange(k as int, n as int).subrange(1, (n - k) as int)
                    =~= self.links@.subrange(k + 1, n as int));
            }
            if self.links[k].1 == internal_id {
                return Some(self.links[k].0);
            }
            k = k + 1;
        }
        None
    }

    /// Version of the last operation applied to the point at this offset.
    pub fn internal_version(&self, internal_id: PointOffsetType) -> (r: Option<SeqNumberType>)
        ensures
            r == self.spec_version_of(internal_id),
    {
        if (internal_id as usize) < self.versions.len() {
            self.versions[internal_id as usize]
        } else {
            None
        }
    }

    /// Records the version of the operation just applied to this offset.
    pub fn set_internal_version(
        &mut self,
        internal_id: PointOffsetType,
        version: SeqNumberType,
    ) -> (r: OperationResult<()>)
        requires
            old(self).wf(),
        ensures
            final(self).wf(),
            final(self).spec_links() == old(self).spec_links(),
            r is Ok <==> internal_id < old(self).spec_internal_size(),
            r is Ok ==> final(self).versions@ == old(self).versions@.update(
                internal_id as int,
                Some(version),
            ),
            r is Err ==> *final(self) == *old(self),
    {
        if (internal_id as usize) < self.versions.len() {
            self.versions.set(internal_id as usize, Some(version));
            Ok(())
        } else {
            Err(OperationError::service_error("version set for an unallocated offset"))
        }
    }

    pub fn points_count(&self) -> (r: usize)
        ensures
            r == self.spec_points_count(),
    {
        self.links.len()
    }

    pub fn internal_size(&self) -> (r: usize)
        ensures
            r == self.spec_internal_size(),
    {
        self.versions.len()
    }

    /// The offset holds no live point (never linked, or dropped).
    pub fn is_deleted(&self, internal_id: PointOffsetType) -> (r: bool)
        ensures
            r == !self.spec_is_live(internal_id),
    {
        self.external_id(internal_id).is_none()
    }

    /// Number of allocated offsets that hold no live point.
    #[verifier::loop_isolation(false)]
    pub fn deleted_count(&self) -> (r: usize)
        ensures
            r == Seq::new(
                self.spec_internal_size(),
                |i: int| ext_of(self.links@, i as PointOffsetType) is None,
            ).filter(|b: bool| b).len(),
    {
        let n = self.versions.len();
        let ghost flags = Seq::new(
            self.spec_internal_size(),
            |i: int| ext_of(self.links@, i as PointOffsetType) is None,
        );
        let mut count: usize = 0;
        let mut i: usize = 0;
        proof {
            assert(flags.subrange(0, 0) =~= Seq::<bool>::empty());
            flags.lemma_filter_len(|b: bool| b);
        }
        while i < n
            invariant
                0 <= i <= n,
                n == self.spec_internal_size(),
                flags == Seq::new(
                    self.spec_internal_size(),
                    |j: int| ext_of(self.links@, j as PointOffsetType) is None,
                ),
                count == flags.subrange(0, i as int).filter(|b: bool| b).len(),
                count <= i,
            decreases n - i,
        {
            proof {
                assert(flags.subrange(0, i + 1).drop_last() =~= flags.subrange(0, i as int));
                reveal(Seq::filter);
            }
            if self.external_id(i as PointOffsetType).is_none() {
                count = count + 1;
            }
            i = i + 1;
        }
        proof {
            assert(flags.subrange(0, n as int) =~= flags);
        }
        count
    }

    /// Live links in ascending external order, starting at `offset` when one
    /// is given (inclusive).
    #[verifier::loop_isolation(false)]
    pub fn iter_from(&self, offset: Option<&PointIdType>) -> (r: Vec<
        (PointIdType, PointOffsetType),
    >)
        requires
            self.wf(),
        ensures
            match offset {
                None => r@ == self.spec_links(),
                Some(o) => {
                    &&& exists|k: int|
                        {
                            &&& 0 <= k <= self.spec_links().len()
                            &&& r@ =~= self.spec_links().subrange(
                                k,
                                self.spec_links().len() as int,
                            )
                            &&& forall|j: int|
                                0 <= j < k ==> point_id_lt((#[trigger] self.spec_links()[j]).0, *o)
                            &&& forall|j: int|
                                k <= j < self.spec_links().len() ==> point_id_le(
                                    *o,
                                    (#[trigger] self.spec_links()[j]).0,
                                )
                        }
                },
            },
    {
        let n = self.links.len();
        let mut start: usize = 0;
        match offset {
            None => {},
            Some(o) => {
                while start < n && self.links[start].0.lt(o)
                    invariant
                        0 <= start <= n,
                        n == self.links@.len(),
                        forall|j: int|
                            0 <= j < start ==> point_id_lt((#[trigger] self.links@[j]).0, *o),
                    decreases n - start,
                {
                    start = start + 1;
                }
                proof {
                    assert forall|j: int| start as int <= j < n implies point_id_le(
                        *o,
                        (#[trigger] self.links@[j]).0,
                    ) by {
                        assert(!point_id_lt(self.links@[start as int].0, *o));
                        if j > start as int {
                            assert(point_id_lt(self.links@[start as int].0, self.links@[j].0));
                        }
                    }
                }
            },
        }
        let mut r: Vec<(PointIdType, PointOffsetType)> = Vec::new();
        let mut k: usize = start;
        while k < n
            invariant
                start <= k <= n,
                n == self.links@.len(),
                r@ =~= self.links@.subrange(start as int, k as int),
            decreases n - k,
        {
            r.push(self.links[k]);
            proof {
                assert(r@ =~= self.links@.subrange(start as int, k + 1));
            }
            k = k + 1;
        }
        proof {
            match offset {
                None => {
                    assert(r@ =~= self.links@);
                },
                Some(o) => {
                    let kk = start as int;
                    assert({
                        &&& 0 <= kk <= self.spec_links().len()
                        &&& r@ =~= self.spec_links().subrange(kk, self.spec_links().len() as int)
                        &&& forall|j: int|
                            0 <= j < kk ==> point_id_lt((#[trigger] self.spec_links()[j]).0, *o)
                        &&& forall|j: int|
                            kk <= j < self.spec_links().len() ==> point_id_le(
                                *o,
                                (#[trigger] self.spec_links()[j]).0,
                            )
                    });
                },
            }
        }
        r
    }

    /// All live external ids, ascending.
    #[verifier::loop_isolation(false)]
    pub fn iter_external(&self) -> (r: Vec<PointIdType>)
        requires
            self.wf(),
        ensures
            r@ =~= Seq::new(self.spec_links().len(), |k: int| self.spec_links()[k].0),
    {
        let n = self.links.len();
        let mut r: Vec<PointIdType> = Vec::new();
        let mut k: usize = 0;
        while k < n
            invariant
                0 <= k <= n,
                n == self.links@.len(),
                r@ =~= Seq::new(k as nat, |j: int| self.links@[j].0),
            decreases n - k,
        {
            r.push(self.links[k].0);
            proof {
                assert(r@ =~= Seq::new((k + 1) as nat, |j: int| self.links@[j].0));
            }
            k = k + 1;
        }
        r
    }

    /// Creates or replaces the link of an external id. The offset must not
    /// be the internal id of a different point.
    #[verifier::loop_isolation(false)]
    #[verifier::rlimit(60)]
    pub fn set_link(&mut self, external_id: PointIdType, internal_id: PointOffsetType) -> (r:
        OperationResult<()>)
        requires
            old(self).wf(),
            old(self).spec_external_id(internal_id) is None || old(self).spec_external_id(
                internal_id,
            ) == Some(external_id),
        ensures
            final(self).wf(),
            r is Ok,
            final(self).spec_internal_id(external_id) == Some(internal_id),
            forall|e2: PointIdType|
                e2 != external_id ==> #[trigger] final(self).spec_internal_id(e2) == old(
                    self,
                ).spec_internal_id(e2),
            final(self).spec_external_id(internal_id) == Some(external_id),
            forall|i2: PointOffsetType|
                i2 != internal_id ==> #[trigger] final(self).spec_external_id(i2) == (if old(
                    self,
                ).spec_external_id(i2) == Some(external_id) {
                    None::<PointIdType>
                } else {
                    old(self).spec_external_id(i2)
                }),
            final(self).spec_internal_size() >= old(self).spec_internal_size(),
            final(self).spec_internal_size() > internal_id,
            final(self).spec_internal_size() as int == (if internal_id
                < old(self).spec_internal_size() {
                old(self).spec_internal_size() as int
            } else {
                internal_id as int + 1
            }),
            final(self).spec_links().len() as int == (if old(self).spec_internal_id(external_id)
                is Some {
                old(self).spec_links().len() as int
            } else {
                old(self).spec_links().len() as int + 1
            }),
            forall|i2: PointOffsetType|
                i2 < old(self).spec_internal_size() ==> #[trigger] final(self).spec_version_of(i2) == old(
                    self,
                ).spec_version_of(i2),
            forall|i2: PointOffsetType|
                i2 >= old(self).spec_internal_size() ==> #[trigger] final(self).spec_version_of(i2)
                    is None,
            old(self).spec_internal_id(external_id) is None ==> final(self).spec_links()
                .to_multiset() == old(self).spec_links().to_multiset().insert(
                (external_id, internal_id),
            ),
    {
        let ghost s0 = self.links@;
        // Allocate offsets up to and including `internal_id`.
        while self.versions.len() <= internal_id as usize
            invariant
                self.links@ == s0,
                old(self).versions@.len() <= self.versions@.len(),
                self.versions@.len() as int <= (if old(self).versions@.len() > internal_id {
                    old(self).versions@.len() as int
                } else {
                    internal_id as int + 1
                }),
                forall|j: int|
                    0 <= j < old(self).versions@.len() ==> self.versions@[j] == old(
                        self,
                    ).versions@[j],
                forall|j: int|
                    old(self).versions@.len() <= j < self.versions@.len()
                        ==> self.versions@[j] is None,
            decreases internal_id + 1 - self.versions@.len(),
        {
            self.versions.push(None);
        }
        let ghost vs = self.versions@;

        // Replace in place when the external id is already linked.
        let n = self.links.len();
        let mut k: usize = 0;
        while k < n
            invariant
                0 <= k <= n,
                self.links@ == s0,
                self.versions@ == vs,
                n == s0.len(),
                forall|j: int| 0 <= j < k ==> (#[trigger] s0[j]).0 != external_id,
            decreases n - k,
        {
            if self.links[k].0 == external_id {
                let ghost old_pair = s0[k as int];
                self.links.set(k, (external_id, internal_id));
                proof {
                    let s1 = self.links@;
                    assert(s0[k as int].0 == external_id);
                    assert(s1 == s0.update(k as int, (external_id, internal_id)));
                    assert forall|a: int, b: int| 0 <= a < b < s1.len() implies point_id_lt(
                        s1[a].0,
                        s1[b].0,
                    ) by {
                        assert(s1[a].0 == s0[a].0 && s1[b].0 == s0[b].0);
                    }
                    assert forall|a: int, b: int| 0 <= a < b < s1.len() implies s1[a].1
                        != s1[b].1 by {
                        if a == k || b == k {
                            // The other entry cannot hold `internal_id`: it would
                            // have to be linked to `external_id` by the precondition,
                            // but keys are strictly sorted, so it differs from s0[k].
                            let o = if a == k {
                                b
                            } else {
                                a
                            };
                            if s0[o].1 == internal_id {
                                lemma_index_contains(s0, o);
                                lemma_contains_to_lookups(s0, s0[o].0, s0[o].1);
                                assert(old(self).spec_external_id(internal_id) == Some(s0[o].0));
                                assert(s0[o].0 == external_id);
                                assert(point_id_lt(s0[k as int].0, s0[o].0) || point_id_lt(
                                    s0[o].0,
                                    s0[k as int].0,
                                ));
                            }
                        } else {
                            assert(s1[a].1 == s0[a].1 && s1[b].1 == s0[b].1);
                        }
                    }
                    assert(self.wf());
                    lemma_index_contains(s0, k as int);
                    lemma_contains_to_lookups(s0, s0[k as int].0, s0[k as int].1);
                    assert(link_of(s0, external_id) == Some(old_pair.1));
                    assert(s1.contains((external_id, internal_id))) by {
                        assert(s1[k as int] == (external_id, internal_id));
                    }
                    lemma_contains_to_lookups(s1, external_id, internal_id);
                    assert forall|e2: PointIdType| e2 != external_id implies #[trigger] link_of(
                        s1,
                        e2,
                    ) == link_of(s0, e2) by {
                        lemma_link_of_contains(s0, e2);
                        lemma_link_of_contains(s1, e2);
                        if link_of(s0, e2) is Some {
                            let v = link_of(s0, e2)->Some_0;
                            let j = choose|j: int| 0 <= j < s0.len() && s0[j] == (e2, v);
                            assert(j != k);
                            assert(s1[j] == (e2, v));
                            lemma_index_contains(s1, j);
                            lemma_contains_to_lookups(s1, e2, v);
                        } else {
                            if link_of(s1, e2) is Some {
                                let v = link_of(s1, e2)->Some_0;
                                let j = choose|j: int| 0 <= j < s1.len() && s1[j] == (e2, v);
                                assert(j != k);
                                assert(s0[j] == (e2, v));
                                assert(s0[j].0 != e2);
                            }
                        }
                    }
                    assert forall|i2: PointOffsetType| i2 != internal_id implies #[trigger] ext_of(
                        s1,
                        i2,
                    ) == (if ext_of(s0, i2) == Some(external_id) {
                        None::<PointIdType>
                    } else {
                        ext_of(s0, i2)
                    }) by {
                        lemma_ext_of_contains(s0, i2);
                        lemma_ext_of_contains(s1, i2);
                        if ext_of(s0, i2) == Some(external_id) {
                            // Only entry k held this external id, and it was
                            // rewritten to `internal_id`.
                            lemma_contains_to_lookups(s0, external_id, i2);
                            assert(i2 == old_pair.1);
                            if ext_of(s1, i2) is Some {
                                let e1 = ext_of(s1, i2)->Some_0;
                                let j = choose|j: int| 0 <= j < s1.len() && s1[j] == (e1, i2);
                                assert(j != k) by {
                                    assert(s1[k as int].1 == internal_id);
                                }
                                assert(s0[j] == (e1, i2));
                                assert(s0[j].1 != s0[k as int].1);
                            }
                        } else if ext_of(s0, i2) is Some {
                            let e1 = ext_of(s0, i2)->Some_0;
                            let j = choose|j: int| 0 <= j < s0.len() && s0[j] == (e1, i2);
                            assert(j != k);
                            assert(s1[j] == (e1, i2));
                            lemma_index_contains(s1, j);
                            lemma_contains_to_lookups(s1, e1, i2);
                        } else {
                            if ext_of(s1, i2) is Some {
                                let e1 = ext_of(s1, i2)->Some_0;
                                let j = choose|j: int| 0 <= j < s1.len() && s1[j] == (e1, i2);
                                assert(j != k);
                                assert(s0[j] == (e1, i2));
                                assert(s0[j].1 != i2);
                            }
                        }
                    }
                }
                return Ok(());
            }
            k = k + 1;
        }

        // Not linked yet: insert at the sorted position.
        let mut p: usize = 0;
        while p < n && self.links[p].0.lt(&external_id)
            invariant
                0 <= p <= n,
                self.links@ == s0,
                self.versions@ == vs,
                n == s0.len(),
                forall|j: int| 0 <= j < p ==> point_id_lt((#[trigger] s0[j]).0, external_id),
            decreases n - p,
        {
            p = p + 1;
        }
        proof {
            assert forall|j: int| p <= j < n implies point_id_lt(
                external_id,
                (#[trigger] s0[j]).0,
            ) by {
                assert(s0[j].0 != external_id);
                if j > p {
                    assert(point_id_lt(s0[p as int].0, s0[j].0));
                }
                assert(point_id_le(external_id, s0[j].0) || point_id_le(s0[j].0, external_id));
            }
        }
        self.links.insert(p, (external_id, internal_id));
        proof {
            let s1 = self.links@;
            assert(s1 == s0.insert(p as int, (external_id, internal_id)));
            s0.insert_ensures(p as int, (external_id, internal_id));
            assert forall|a: int, b: int| 0 <= a < b < s1.len() implies point_id_lt(
                s1[a].0,
                s1[b].0,
            ) by {
                let ai = if a < p {
                    a
                } else {
                    a - 1
                };
                let bi = if b < p {
                    b
                } else {
                    b - 1
                };
                if a != p && b != p {
                    assert(s1[a] == s0[ai] && s1[b] == s0[bi]);
                }
            }
            assert forall|a: int, b: int| 0 <= a < b < s1.len() implies s1[a].1 != s1[b].1 by {
                let o = if a == p {
                    b
                } else {
                    a
                };
                if a == p || b == p {
                    let oi = if o < p {
                        o
                    } else {
                        o - 1
                    };
                    assert(s1[o] == s0[oi]);
                    if s0[oi].1 == internal_id {
                        lemma_index_contains(s0, oi);
                        lemma_contains_to_lookups(s0, s0[oi].0, s0[oi].1);
                        assert(old(self).spec_external_id(internal_id) == Some(s0[oi].0));
                        assert((forall|j2: int|
                            0 <= j2 < s0.len() ==> (#[trigger] s0[j2]).0 != external_id));
                    }
                } else {
                    let ai = if a < p {
                        a
                    } else {
                        a - 1
                    };
                    let bi = if b < p {
                        b
                    } else {
                        b - 1
                    };
                    assert(s1[a] == s0[ai] && s1[b] == s0[bi]);
                }
            }
            assert(self.wf());
            assert(s1[p as int] == (external_id, internal_id));
            assert(s1.contains((external_id, internal_id)));
            lemma_contains_to_lookups(s1, external_id, internal_id);
            assert forall|e2: PointIdType| e2 != external_id implies #[trigger] link_of(s1, e2)
                == link_of(s0, e2) by {
                lemma_link_of_contains(s0, e2);
                lemma_link_of_contains(s1, e2);
                if link_of(s0, e2) is Some {
                    let v = link_of(s0, e2)->Some_0;
                    let j = choose|j: int| 0 <= j < s0.len() && s0[j] == (e2, v);
                    let j1 = if j < p {
                        j
                    } else {
                        j + 1
                    };
                    assert(s1[j1] == (e2, v));
                    lemma_contains_to_lookups(s1, e2, v);
                } else {
                    if link_of(s1, e2) is Some {
                        let v = link_of(s1, e2)->Some_0;
                        let j = choose|j: int| 0 <= j < s1.len() && s1[j] == (e2, v);
                        assert(j != p);
                        let ji = if j < p {
                            j
                        } else {
                            j - 1
                        };
                        assert(s0[ji] == (e2, v));
                        assert(s0[ji].0 != e2);
                    }
                }
            }
            assert forall|i2: PointOffsetType| i2 != internal_id implies #[trigger] ext_of(s1, i2)
                == (if ext_of(s0, i2) == Some(external_id) {
                None::<PointIdType>
            } else {
                ext_of(s0, i2)
            }) by {
                lemma_ext_of_contains(s0, i2);
                lemma_ext_of_contains(s1, i2);
                if ext_of(s0, i2) is Some {
                    let e1 = ext_of(s0, i2)->Some_0;
                    assert(e1 != external_id) by {
                        if e1 == external_id {
                            let j = choose|j: int| 0 <= j < s0.len() && s0[j] == (e1, i2);
                            assert((forall|j2: int|
                                0 <= j2 < s0.len() ==> (#[trigger] s0[j2]).0 != external_id));
                        }
                    }
                    let j = choose|j: int| 0 <= j < s0.len() && s0[j] == (e1, i2);
                    let j1 = if j < p {
                        j
                    } else {
                        j + 1
                    };
                    assert(s1[j1] == (e1, i2));
                    lemma_contains_to_lookups(s1, e1, i2);
                } else {
                    if ext_of(s1, i2) is Some {
                        let e1 = ext_of(s1, i2)->Some_0;
                        let j = choose|j: int| 0 <= j < s1.len() && s1[j] == (e1, i2);
                        assert(j != p);
                        let ji = if j < p {
                            j
                        } else {
                            j - 1
                        };
                        assert(s0[ji] == (e1, i2));
                        assert(s0[ji].1 != i2);
                    }
                }
            }
            assert(link_of(s0, external_id) is None) by {
                lemma_link_of_contains(s0, external_id);
            }
            assert(s1.to_multiset() =~= s0.to_multiset().insert((external_id, internal_id))) by {
                assert(s1 =~= s0.subrange(0, p as int).push((external_id, internal_id)) + s0
                    .subrange(p as int, s0.len() as int));
                assert(s0 =~= s0.subrange(0, p as int) + s0.subrange(p as int, s0.len() as int));
                vstd::seq_lib::lemma_multiset_commutative(
                    s0.subrange(0, p as int).push((external_id, internal_id)),
                    s0.subrange(p as int, s0.len() as int),
                );
                vstd::seq_lib::lemma_multiset_commutative(
                    s0.subrange(0, p as int),
                    s0.subrange(p as int, s0.len() as int),
                );
                s0.subrange(0, p as int).to_multiset_ensures();
            }
        }
        Ok(())
    }

    /// Removes the link of an external id; the offset stays allocated as a
    /// tombstone. Dropping an unknown id is an error.
    #[verifier::loop_isolation(false)]
    pub fn drop(&mut self, external_id: PointIdType) -> (r: OperationResult<()>)
        requires
            old(self).wf(),
        ensures
            final(self).wf(),
            r is Ok <==> old(self).spec_internal_id(external_id) is Some,
            r is Err ==> *final(self) == *old(self),
            final(self).spec_internal_id(external_id) is None,
            forall|e2: PointIdType|
                e2 != external_id ==> #[trigger] final(self).spec_internal_id(e2) == old(
                    self,
                ).spec_internal_id(e2),
            forall|i2: PointOffsetType|
                #[trigger] final(self).spec_external_id(i2) == (if old(self).spec_external_id(i2) == Some(
                    external_id,
                ) {
                    None::<PointIdType>
                } else {
                    old(self).spec_external_id(i2)
                }),
            final(self).versions@ == old(self).versions@,
            r is Ok ==> final(self).spec_links().len() == old(self).spec_links().len() - 1,
    {
        let ghost s0 = self.links@;
        let n = self.links.len();
        let mut k: usize = 0;
        while k < n
            invariant
                0 <= k <= n,
                *self == *old(self),
                n == s0.len(),
                forall|j: int| 0 <= j < k ==> (#[trigger] s0[j]).0 != external_id,
            decreases n - k,
        {
            if self.links[k].0 == external_id {
                let ghost removed = s0[k as int];
                self.links.remove(k);
                proof {
                    let s1 = self.links@;
                    assert(s1 == s0.remove(k as int));
                    s0.remove_ensures(k as int);
                    assert(s0[k as int].0 == external_id);
                    lemma_index_contains(s0, k as int);
                    lemma_contains_to_lookups(s0, s0[k as int].0, s0[k as int].1);
                    assert(link_of(s0, external_id) == Some(removed.1));
                    assert forall|a: int, b: int| 0 <= a < b < s1.len() implies point_id_lt(
                        s1[a].0,
                        s1[b].0,
                    ) && s1[a].1 != s1[b].1 by {
                        let ai = if a < k {
                            a
                        } else {
                            a + 1
                        };
                        let bi = if b < k {
                            b
                        } else {
                            b + 1
                        };
                        assert(s1[a] == s0[ai] && s1[b] == s0[bi]);
                    }
                    assert(self.versions@ == old(self).versions@);
                    assert forall|j: int| 0 <= j < s1.len() implies (#[trigger] s1[j]).1
                        < self.versions@.len() by {
                        let ji = if j < k {
                            j
                        } else {
                            j + 1
                        };
                        assert(s1[j] == s0[ji]);
                        assert(s0[ji].1 < old(self).versions@.len());
                    }
                    assert(self.wf());
                    assert(link_of(s1, external_id) is None) by {
                        lemma_link_of_contains(s1, external_id);
                        if link_of(s1, external_id) is Some {
                            let v = link_of(s1, external_id)->Some_0;
                            let j = choose|j: int|
                                0 <= j < s1.len() && s1[j] == (external_id, v);
                            let ji = if j < k {
                                j
                            } else {
                                j + 1
                            };
                            assert(s0[ji] == (external_id, v));
                            assert(ji != k ==> point_id_lt(s0[k as int].0, s0[ji].0)
                                || point_id_lt(s0[ji].0, s0[k as int].0));
                        }
                    }
                    assert forall|e2: PointIdType| e2 != external_id implies #[trigger] link_of(
                        s1,
                        e2,
                    ) == link_of(s0, e2) by {
                        lemma_link_of_contains(s0, e2);
                        lemma_link_of_contains(s1, e2);
                        if link_of(s0, e2) is Some {
                            let v = link_of(s0, e2)->Some_0;
                            let j = choose|j: int| 0 <= j < s0.len() && s0[j] == (e2, v);
                            assert(j != k);
                            let j1 = if j < k {
                                j
                            } else {
                                j - 1
                            };
                            assert(s1[j1] == (e2, v));
                            lemma_contains_to_lookups(s1, e2, v);
                        } else {
                            if link_of(s1, e2) is Some {
                                let v = link_of(s1, e2)->Some_0;
                                let j = choose|j: int| 0 <= j < s1.len() && s1[j] == (e2, v);
                                let ji = if j < k {
                                    j
                                } else {
                                    j + 1
                                };
                                assert(s0[ji] == (e2, v));
                                assert(s0[ji].0 != e2);
                            }
                        }
                    }
                    assert forall|i2: PointOffsetType| #[trigger] ext_of(s1, i2) == (if ext_of(
                        s0,
                        i2,
                    ) == Some(external_id) {
                        None::<PointIdType>
                    } else {
                        ext_of(s0, i2)
                    }) by {
                        lemma_ext_of_contains(s0, i2);
                        lemma_ext_of_contains(s1, i2);
                        if ext_of(s0, i2) == Some(external_id) {
                            lemma_contains_to_lookups(s0, external_id, i2);
                            assert(i2 == removed.1);
                            if ext_of(s1, i2) is Some {
                                let e1 = ext_of(s1, i2)->Some_0;
                                let j = choose|j: int| 0 <= j < s1.len() && s1[j] == (e1, i2);
                                let ji = if j < k {
                                    j
                                } else {
                                    j + 1
                                };
                                assert(s0[ji] == (e1, i2));
                                assert(ji != k ==> s0[ji].1 != s0[k as int].1);
                            }
                        } else if ext_of(s0, i2) is Some {
                            let e1 = ext_of(s0, i2)->Some_0;
                            let j = choose|j: int| 0 <= j < s0.len() && s0[j] == (e1, i2);
                            assert(j != k) by {
                                if j == k {
                                    assert(s0[k as int].0 == e1);
                                }
                            }
                            let j1 = if j < k {
                                j
                            } else {
                                j - 1
                            };
                            assert(s1[j1] == (e1, i2));
                            lemma_index_contains(s1, j1);
                            lemma_contains_to_lookups(s1, e1, i2);
                        } else {
                            if ext_of(s1, i2) is Some {
                                let e1 = ext_of(s1, i2)->Some_0;
                                let j = choose|j: int| 0 <= j < s1.len() && s1[j] == (e1, i2);
                                let ji = if j < k {
                                    j
                                } else {
                                    j + 1
                                };
                                assert(s0[ji] == (e1, i2));
                                assert(s0[ji].1 != i2);
                            }
                        }
                    }
                }
                return Ok(());
            }
            k = k + 1;
        }
        proof {
            lemma_link_of_contains(s0, external_id);
            if link_of(s0, external_id) is Some {
                let v = link_of(s0, external_id)->Some_0;
                assert(s0.contains((external_id, v)));
                let j = choose|j: int| 0 <= j < s0.len() && s0[j] == (external_id, v);
                assert(s0[j].0 != external_id);
            }
            assert forall|i2: PointOffsetType| #[trigger] ext_of(s0, i2) != Some(
                external_id,
            ) by {
                lemma_ext_of_contains(s0, i2);
                if ext_of(s0, i2) == Some(external_id) {
                    let j = choose|j: int| 0 <= j < s0.len() && s0[j] == (external_id, i2);
                    assert(s0[j].0 != external_id);
                }
            }
        }
        Err(OperationError::PointIdError { missed_point_id: external_id })
    }

    /// All live internal offsets, in external order.
    #[verifier::loop_isolation(false)]
    pub fn iter_ids(&self) -> (r: Vec<PointOffsetType>)
        requires
            self.wf(),
        ensures
            r@ =~= Seq::new(self.spec_links().len(), |k: int| self.spec_links()[k].1),
    {
        let n = self.links.len();
        let mut r: Vec<PointOffsetType> = Vec::new();
        let mut k: usize = 0;
        while k < n
            invariant
                0 <= k <= n,
                n == self.links@.len(),
                r@ =~= Seq::new(k as nat, |j: int| self.links@[j].1),
            decreases n - k,
        {
            r.push(self.links[k].1);
            proof {
                assert(r@ =~= Seq::new((k + 1) as nat, |j: int| self.links@[j].1));
            }
            k = k + 1;
        }
        r
    }
}

} // verus!
