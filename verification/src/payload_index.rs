//! Payload indexes: the registry of indexed fields, the filter-driven
//! candidate selection with its exact contract, and the cardinality
//! estimator that drives the query planner.

use vstd::prelude::*;
use crate::assoc::{assoc_keys_unique, assoc_get, assoc_find, lemma_assoc_update, lemma_assoc_push, lemma_assoc_remove};
use crate::types::{PointIdType, PointOffsetType};
use crate::payload::{
    Filter, Condition, PayloadValue, spec_filter_matches, spec_condition_matches,
};
use crate::payload_storage::SimplePayloadStorage;
use crate::id_tracker::SimpleIdTracker;

verus! {

/// Payload types a field index can be declared with.
#[derive(Clone, Copy, PartialEq, Eq, Structural, Debug)]
pub enum PayloadSchemaType {
    Keyword,
    Integer,
    Bool,
}

/// Bounds on the number of points a filter matches.
#[derive(Clone, Copy, PartialEq, Eq, Structural, Debug)]
pub struct CardinalityEstimation {
    pub min: usize,
    pub exp: usize,
    pub max: usize,
}

impl CardinalityEstimation {
    /// The bounds are ordered and within the segment size.
    pub open spec fn wf(&self, total: nat) -> bool {
        self.min <= self.exp <= self.max <= total
    }

    /// An exact estimate.
    pub fn exact(count: usize) -> (r: Self)
        ensures
            r.min == count && r.exp == count && r.max == count,
    {
        CardinalityEstimation { min: count, exp: count, max: count }
    }

    /// The estimate when nothing is known: anywhere between none and all.
    pub fn unknown(total: usize) -> (r: Self)
        ensures
            r.min == 0 && r.exp == total / 2 && r.max == total,
            r.wf(total as nat),
    {
        CardinalityEstimation { min: 0, exp: total / 2, max: total }
    }
}

/// Whether a live link (external id, internal offset) satisfies a filter,
/// reading the point's payload from the storage.
pub open spec fn spec_link_matches(
    ps: SimplePayloadStorage,
    f: Filter,
    link: (PointIdType, PointOffsetType),
) -> bool {
    &&& link.1 < ps.spec_len()
    &&& spec_filter_matches(f, ps.payloads@[link.1 as int], link.0)
}

/// Same, for a single condition.
pub open spec fn spec_link_matches_condition(
    ps: SimplePayloadStorage,
    c: Condition,
    link: (PointIdType, PointOffsetType),
) -> bool {
    &&& link.1 < ps.spec_len()
    &&& spec_condition_matches(c, ps.payloads@[link.1 as int], link.0)
}

/// Decides whether one point satisfies a filter: the filter context used by
/// full scans.
pub fn check_point(
    ps: &SimplePayloadStorage,
    f: &Filter,
    internal_id: PointOffsetType,
    external_id: &PointIdType,
) -> (r: bool)
    requires
        internal_id < ps.spec_len(),
    ensures
        r == spec_link_matches(*ps, *f, (*external_id, internal_id)),
{
    match ps.payload(internal_id) {
        Some(p) => f.check(p, external_id),
        None => false,
    }
}

/// The links of the tracker that satisfy the filter, in ascending external
/// order.
pub open spec fn spec_matching_links(
    ps: SimplePayloadStorage,
    tracker: SimpleIdTracker,
    f: Filter,
) -> Seq<(PointIdType, PointOffsetType)> {
    tracker.spec_links().filter(|l: (PointIdType, PointOffsetType)| spec_link_matches(ps, f, l))
}

/// Collects every live point that satisfies the filter, with its external
/// id, in ascending external order.
#[verifier::loop_isolation(false)]
pub fn matching_links(
    ps: &SimplePayloadStorage,
    tracker: &SimpleIdTracker,
    f: &Filter,
) -> (r: Vec<(PointIdType, PointOffsetType)>)
    requires
        ps.wf(),
        tracker.wf(),
        forall|k: int|
            0 <= k < tracker.spec_links().len() ==> (#[trigger] tracker.spec_links()[k]).1
                < ps.spec_len(),
    ensures
        r@ == spec_matching_links(*ps, *tracker, *f),
{
    let ghost pred = |l: (PointIdType, PointOffsetType)| spec_link_matches(*ps, *f, l);
    let links = tracker.iter_from(None);
    let n = links.len();
    let mut r: Vec<(PointIdType, PointOffsetType)> = Vec::new();
    let mut k: usize = 0;
    proof {
        reveal(Seq::filter);
        assert(links@.subrange(0, 0) =~= Seq::<(PointIdType, PointOffsetType)>::empty());
        assert(r@ =~= links@.subrange(0, 0).filter(pred));
    }
    while k < n
        invariant
            0 <= k <= n,
            n == links@.len(),
            links@ == tracker.spec_links(),
            r@ == links@.subrange(0, k as int).filter(pred),
        decreases n - k,
    {
        let pair = links[k];
        let matched = check_point(ps, f, pair.1, &pair.0);
        proof {
            reveal(Seq::filter);
            let prefix = links@.subrange(0, k as int);
            let prefix1 = links@.subrange(0, k + 1);
            assert(prefix1.drop_last() =~= prefix);
            assert(prefix1.last() == links@[k as int]);
        }
        if matched {
            r.push(pair);
        }
        k = k + 1;
    }
    proof {
        assert(links@.subrange(0, n as int) =~= links@);
    }
    r
}

/// Every matching link satisfies the filter, and every link either matches
/// or is left out: what the planner and the counters rely on.
pub proof fn lemma_matching_links_spec(
    ps: SimplePayloadStorage,
    tracker: SimpleIdTracker,
    f: Filter,
)
    ensures
        forall|k: int|
            0 <= k < spec_matching_links(ps, tracker, f).len() ==> spec_link_matches(
                ps,
                f,
                #[trigger] spec_matching_links(ps, tracker, f)[k],
            ) && tracker.spec_links().contains(spec_matching_links(ps, tracker, f)[k]),
        forall|k: int|
            0 <= k < tracker.spec_links().len() && spec_link_matches(
                ps,
                f,
                #[trigger] tracker.spec_links()[k],
            ) ==> spec_matching_links(ps, tracker, f).contains(tracker.spec_links()[k]),
{
    let pred = |l: (PointIdType, PointOffsetType)| spec_link_matches(ps, f, l);
    let links = tracker.spec_links();
    #[allow(deprecated)]
    links.filter_lemma(pred);
    lemma_filter_subset(links, pred);
}

/// A filtered sequence only holds elements of the original.
pub proof fn lemma_filter_subset<A>(s: Seq<A>, pred: spec_fn(A) -> bool)
    ensures
        forall|k: int|
            0 <= k < s.filter(pred).len() ==> s.contains(#[trigger] s.filter(pred)[k]),
    decreases s.len(),
{
    reveal(Seq::filter);
    if s.len() > 0 {
        let t = s.drop_last();
        lemma_filter_subset(t, pred);
        let out = s.filter(pred);
        assert forall|k: int| 0 <= k < out.len() implies s.contains(#[trigger] out[k]) by {
            if pred(s.last()) && k == out.len() - 1 {
                assert(out[k] == s.last());
                assert(s[s.len() - 1] == s.last());
            } else {
                assert(out[k] == t.filter(pred)[k]);
                assert(t.contains(t.filter(pred)[k]));
                let j = choose|j: int| 0 <= j < t.len() && t[j] == t.filter(pred)[k];
                assert(s[j] == t[j]);
            }
        }
    }
}

/// Clamps a value into an interval, as the estimator does.
pub open spec fn spec_clamp(x: int, lo: int, hi: int) -> int {
    if x < lo {
        lo
    } else if x > hi {
        hi
    } else {
        x
    }
}

/// The intersection rule of the estimator.
pub open spec fn spec_combine_must_est(a: (int, int, int), b: (int, int, int), total: int) -> (
    int,
    int,
    int,
) {
    let mn = if a.0 + b.0 > total {
        a.0 + b.0 - total
    } else {
        0
    };
    let mx = if a.2 <= b.2 {
        a.2
    } else {
        b.2
    };
    let raw = if total > 0 {
        a.1 * b.1 / total
    } else {
        0
    };
    (mn, spec_clamp(raw, mn, mx), mx)
}

/// The union rule of the estimator.
pub open spec fn spec_combine_should_est(a: (int, int, int), b: (int, int, int), total: int) -> (
    int,
    int,
    int,
) {
    let mn = if a.0 >= b.0 {
        a.0
    } else {
        b.0
    };
    let mx = if a.2 + b.2 <= total {
        a.2 + b.2
    } else {
        total
    };
    let prod = if total > 0 {
        a.1 * b.1 / total
    } else {
        0
    };
    let raw = if a.1 + b.1 - prod > total {
        total
    } else {
        a.1 + b.1 - prod
    };
    (mn, spec_clamp(raw, mn, mx), mx)
}

/// The negation rule of the estimator.
pub open spec fn spec_invert_est(a: (int, int, int), total: int) -> (int, int, int) {
    (total - a.2, total - a.1, total - a.0)
}

/// Whether the payload at a link holds at least one concrete (non-null)
/// value under the field: such a point is covered by the field's index.
pub open spec fn spec_link_indexed(
    ps: SimplePayloadStorage,
    key: Seq<char>,
    link: (PointIdType, PointOffsetType),
) -> bool {
    &&& link.1 < ps.spec_len()
    &&& match ps.payloads@[link.1 as int].spec_values(key) {
        Some(vs) => exists|i: int| 0 <= i < vs.len() && !((#[trigger] vs[i]) is Null),
        None => false,
    }
}

/// How many live points the field's index covers.
pub open spec fn spec_indexed_points(
    ps: SimplePayloadStorage,
    tracker: SimpleIdTracker,
    key: Seq<char>,
) -> int {
    tracker.spec_links().filter(
        |l: (PointIdType, PointOffsetType)| spec_link_indexed(ps, key, l),
    ).len() as int
}

/// Whether a value list holds at least one concrete (non-null) value.
#[verifier::loop_isolation(false)]
fn has_concrete_value(values: &Vec<PayloadValue>) -> (r: bool)
    ensures
        r == exists|i: int| 0 <= i < values@.len() && !((#[trigger] values@[i]) is Null),
{
    let n = values.len();
    let mut j: usize = 0;
    while j < n
        invariant
            0 <= j <= n,
            n == values@.len(),
            forall|i: int| 0 <= i < j ==> (#[trigger] values@[i]) is Null,
        decreases n - j,
    {
        let concrete = match &values[j] {
            PayloadValue::Null => false,
            _ => true,
        };
        if concrete {
            return true;
        }
        j = j + 1;
    }
    false
}

/// Exact number of live links one condition matches.
pub open spec fn spec_condition_count(
    ps: SimplePayloadStorage,
    tracker: SimpleIdTracker,
    c: Condition,
) -> int {
    tracker.spec_links().filter(
        |l: (PointIdType, PointOffsetType)| spec_link_matches_condition(ps, c, l),
    ).len() as int
}

/// The estimate of one condition: exact counts for indexed fields and id
/// sets; for emptiness and null checks on an indexed field, zero up to the
/// points the index does not cover; the unknown estimate where the field
/// has no index; the combination rules for a nested filter.
pub open spec fn spec_condition_estimate(
    pi: StructPayloadIndex,
    ps: SimplePayloadStorage,
    tracker: SimpleIdTracker,
    c: Condition,
    total: int,
) -> (int, int, int)
    decreases c,
{
    match c {
        Condition::Field(fc) => {
            if pi.spec_schema_of(fc.key@) is Some {
                let n = spec_condition_count(ps, tracker, c);
                (n, n, n)
            } else {
                (0, total / 2, total)
            }
        },
        Condition::Nested(f) => spec_filter_estimate(pi, ps, tracker, *f, total),
        Condition::IsEmpty(ic) => {
            if pi.spec_schema_of(ic.key@) is Some {
                let e = total - spec_indexed_points(ps, tracker, ic.key@);
                (0, e, e)
            } else {
                (0, total / 2, total)
            }
        },
        Condition::IsNull(ic) => {
            if pi.spec_schema_of(ic.key@) is Some {
                let e = total - spec_indexed_points(ps, tracker, ic.key@);
                (0, e, e)
            } else {
                (0, total / 2, total)
            }
        },
        _ => {
            let n = spec_condition_count(ps, tracker, c);
            (n, n, n)
        },
    }
}

/// Two pointwise-exclusive predicates split a sequence: their match
/// counts together never exceed its length.
pub proof fn lemma_filter_disjoint_counts<A>(
    s: Seq<A>,
    p: spec_fn(A) -> bool,
    q: spec_fn(A) -> bool,
)
    requires
        forall|x: A| #![trigger p(x), q(x)] !(p(x) && q(x)),
    ensures
        s.filter(p).len() + s.filter(q).len() <= s.len(),
    decreases s.len(),
{
    reveal(Seq::filter);
    if s.len() > 0 {
        lemma_filter_disjoint_counts(s.drop_last(), p, q);
    }
}

/// A predicate and its complement split a sequence exactly.
pub proof fn lemma_filter_complement_counts<A>(
    s: Seq<A>,
    p: spec_fn(A) -> bool,
    np: spec_fn(A) -> bool,
)
    requires
        forall|x: A| #[trigger] np(x) == !p(x),
    ensures
        s.filter(p).len() + s.filter(np).len() == s.len(),
    decreases s.len(),
{
    reveal(Seq::filter);
    if s.len() > 0 {
        lemma_filter_complement_counts(s.drop_last(), p, np);
    }
}

/// A pointwise-weaker predicate never matches fewer elements.
pub proof fn lemma_filter_monotone_counts<A>(
    s: Seq<A>,
    p: spec_fn(A) -> bool,
    q: spec_fn(A) -> bool,
)
    requires
        forall|x: A| #[trigger] p(x) ==> q(x),
    ensures
        s.filter(p).len() <= s.filter(q).len(),
    decreases s.len(),
{
    reveal(Seq::filter);
    if s.len() > 0 {
        lemma_filter_monotone_counts(s.drop_last(), p, q);
    }
}

/// Counting a conjunction: never more than either side, and no less than
/// what the two sides force together.
pub proof fn lemma_filter_conj_counts<A>(
    s: Seq<A>,
    p: spec_fn(A) -> bool,
    q: spec_fn(A) -> bool,
    both: spec_fn(A) -> bool,
)
    requires
        forall|x: A| #[trigger] both(x) == (p(x) && q(x)),
    ensures
        s.filter(both).len() <= s.filter(p).len(),
        s.filter(both).len() <= s.filter(q).len(),
        s.filter(p).len() + s.filter(q).len() <= s.len() + s.filter(both).len(),
    decreases s.len(),
{
    reveal(Seq::filter);
    if s.len() > 0 {
        lemma_filter_conj_counts(s.drop_last(), p, q, both);
    }
}

/// Counting a disjunction: at least either side, at most their sum.
pub proof fn lemma_filter_disj_counts<A>(
    s: Seq<A>,
    p: spec_fn(A) -> bool,
    q: spec_fn(A) -> bool,
    either: spec_fn(A) -> bool,
)
    requires
        forall|x: A| #[trigger] either(x) == (p(x) || q(x)),
    ensures
        s.filter(p).len() <= s.filter(either).len(),
        s.filter(q).len() <= s.filter(either).len(),
        s.filter(either).len() <= s.filter(p).len() + s.filter(q).len(),
    decreases s.len(),
{
    reveal(Seq::filter);
    if s.len() > 0 {
        lemma_filter_disj_counts(s.drop_last(), p, q, either);
    }
}

/// The intersection rule is sound: when each side's true count lies in
/// its estimate, the count of elements matching both sides lies in the
/// combined estimate.
pub proof fn lemma_combine_must_sound<A>(
    s: Seq<A>,
    p: spec_fn(A) -> bool,
    q: spec_fn(A) -> bool,
    both: spec_fn(A) -> bool,
    a: (int, int, int),
    b: (int, int, int),
)
    requires
        forall|x: A| #[trigger] both(x) == (p(x) && q(x)),
        a.0 <= s.filter(p).len() <= a.2,
        b.0 <= s.filter(q).len() <= b.2,
    ensures
        spec_combine_must_est(a, b, s.len() as int).0 <= s.filter(both).len(),
        s.filter(both).len() <= spec_combine_must_est(a, b, s.len() as int).2,
{
    lemma_filter_conj_counts(s, p, q, both);
}

/// The union rule is sound in the same sense.
pub proof fn lemma_combine_should_sound<A>(
    s: Seq<A>,
    p: spec_fn(A) -> bool,
    q: spec_fn(A) -> bool,
    either: spec_fn(A) -> bool,
    a: (int, int, int),
    b: (int, int, int),
)
    requires
        forall|x: A| #[trigger] either(x) == (p(x) || q(x)),
        a.0 <= s.filter(p).len() <= a.2,
        b.0 <= s.filter(q).len() <= b.2,
    ensures
        spec_combine_should_est(a, b, s.len() as int).0 <= s.filter(either).len(),
        s.filter(either).len() <= spec_combine_should_est(a, b, s.len() as int).2,
{
    lemma_filter_disj_counts(s, p, q, either);
    s.lemma_filter_len(either);
}

/// The negation rule is sound: the complement's count lies in the
/// inverted estimate.
pub proof fn lemma_invert_sound<A>(
    s: Seq<A>,
    p: spec_fn(A) -> bool,
    np: spec_fn(A) -> bool,
    a: (int, int, int),
)
    requires
        forall|x: A| #[trigger] np(x) == !p(x),
        a.0 <= s.filter(p).len() <= a.2,
    ensures
        spec_invert_est(a, s.len() as int).0 <= s.filter(np).len(),
        s.filter(np).len() <= spec_invert_est(a, s.len() as int).2,
{
    lemma_filter_complement_counts(s, p, np);
}

/// The estimate of a single condition brackets its true count: exact
/// conditions are counted outright; an emptiness check on an indexed
/// field stays under the points the index does not cover; an unindexed
/// field's unknown estimate spans everything. A null check on an indexed
/// field is left out: a point can hold a null beside a concrete value and
/// so escape the index-coverage bound. A nested filter is left out: the
/// combination rules' soundness is not established here.
pub proof fn lemma_condition_estimate_sound(
    pi: StructPayloadIndex,
    ps: SimplePayloadStorage,
    tracker: SimpleIdTracker,
    c: Condition,
    total: int,
)
    requires
        total == tracker.spec_links().len(),
        !(c is Nested),
        (match c {
            Condition::IsNull(ic) => pi.spec_schema_of(ic.key@) is None,
            _ => true,
        }),
    ensures
        spec_condition_estimate(pi, ps, tracker, c, total).0 <= spec_condition_count(
            ps,
            tracker,
            c,
        ),
        spec_condition_count(ps, tracker, c) <= spec_condition_estimate(
            pi,
            ps,
            tracker,
            c,
            total,
        ).2,
{
    let links = tracker.spec_links();
    let pred = |l: (PointIdType, PointOffsetType)| spec_link_matches_condition(ps, c, l);
    links.lemma_filter_len(pred);
    match c {
        Condition::IsEmpty(ic) => {
            if pi.spec_schema_of(ic.key@) is Some {
                let cov = |l: (PointIdType, PointOffsetType)| spec_link_indexed(ps, ic.key@, l);
                assert forall|l: (PointIdType, PointOffsetType)| #![trigger pred(l), cov(l)]
                    !(pred(l) && cov(l)) by {
                    if pred(l) && cov(l) {
                        assert(match ps.payloads@[l.1 as int].spec_values(ic.key@) {
                            Some(vs) => vs.len() == 0,
                            None => true,
                        });
                    }
                }
                lemma_filter_disjoint_counts(links, pred, cov);
            }
        },
        _ => {},
    }
}

/// Folds the intersection rule over conditions.
pub open spec fn spec_fold_must_est(
    pi: StructPayloadIndex,
    ps: SimplePayloadStorage,
    tracker: SimpleIdTracker,
    acc: (int, int, int),
    cs: Seq<Condition>,
    total: int,
) -> (int, int, int)
    decreases cs,
{
    if cs.len() == 0 {
        acc
    } else {
        spec_fold_must_est(
            pi,
            ps,
            tracker,
            spec_combine_must_est(
                acc,
                spec_condition_estimate(pi, ps, tracker, cs[0], total),
                total,
            ),
            cs.subrange(1, cs.len() as int),
            total,
        )
    }
}

/// Folds the union rule over conditions.
pub open spec fn spec_fold_should_est(
    pi: StructPayloadIndex,
    ps: SimplePayloadStorage,
    tracker: SimpleIdTracker,
    acc: (int, int, int),
    cs: Seq<Condition>,
    total: int,
) -> (int, int, int)
    decreases cs,
{
    if cs.len() == 0 {
        acc
    } else {
        spec_fold_should_est(
            pi,
            ps,
            tracker,
            spec_combine_should_est(
                acc,
                spec_condition_estimate(pi, ps, tracker, cs[0], total),
                total,
            ),
            cs.subrange(1, cs.len() as int),
            total,
        )
    }
}

/// Folds the negation-and-intersection rule over conditions.
pub open spec fn spec_fold_not_est(
    pi: StructPayloadIndex,
    ps: SimplePayloadStorage,
    tracker: SimpleIdTracker,
    acc: (int, int, int),
    cs: Seq<Condition>,
    total: int,
) -> (int, int, int)
    decreases cs,
{
    if cs.len() == 0 {
        acc
    } else {
        spec_fold_not_est(
            pi,
            ps,
            tracker,
            spec_combine_must_est(
                acc,
                spec_invert_est(spec_condition_estimate(pi, ps, tracker, cs[0], total), total),
                total,
            ),
            cs.subrange(1, cs.len() as int),
            total,
        )
    }
}

/// The estimate of a whole filter: the composition the estimator computes.
pub open spec fn spec_filter_estimate(
    pi: StructPayloadIndex,
    ps: SimplePayloadStorage,
    tracker: SimpleIdTracker,
    f: Filter,
    total: int,
) -> (int, int, int)
    decreases f,
{
    let after_must = spec_fold_must_est(pi, ps, tracker, (total, total, total), f.must@, total);
    let after_should = if f.should@.len() > 0 {
        spec_combine_must_est(
            after_must,
            spec_fold_should_est(pi, ps, tracker, (0, 0, 0), f.should@, total),
            total,
        )
    } else {
        after_must
    };
    spec_fold_not_est(pi, ps, tracker, after_should, f.must_not@, total)
}

/// Registry of indexed payload fields; the candidate selector and the
/// cardinality estimator of one segment.
pub struct StructPayloadIndex {
    /// Which fields are indexed, and with which schema.
    pub config: Vec<(String, PayloadSchemaType)>,
}

impl StructPayloadIndex {
    pub open spec fn wf(&self) -> bool {
        assoc_keys_unique(self.config@)
    }

    pub open spec fn spec_schema_of(&self, field: Seq<char>) -> Option<PayloadSchemaType> {
        assoc_get(self.config@, field)
    }

    pub fn new() -> (r: Self)
        ensures
            r.wf(),
            r.config@.len() == 0,
    {
        StructPayloadIndex { config: Vec::new() }
    }

    /// The indexed fields, as (field, schema) pairs.
    pub fn indexed_fields(&self) -> (r: &Vec<(String, PayloadSchemaType)>)
        ensures
            r == &self.config,
    {
        &self.config
    }

    /// Declares a field as indexed.
    pub fn set_indexed(&mut self, field: String, schema: PayloadSchemaType)
        requires
            old(self).wf(),
        ensures
            final(self).wf(),
            final(self).spec_schema_of(field@) == Some(schema),
            forall|f2: Seq<char>|
                f2 != field@ ==> #[trigger] final(self).spec_schema_of(f2) == old(
                    self,
                ).spec_schema_of(f2),
    {
        let ghost s0 = self.config@;
        match assoc_find(&self.config, &field) {
            Some(i) => {
                proof {
                    lemma_assoc_update(s0, i as int, (field, schema));
                }
                self.config.set(i, (field, schema));
            },
            None => {
                proof {
                    lemma_assoc_push(s0, (field, schema));
                }
                self.config.push((field, schema));
            },
        }
    }

    /// Removes a field from the registry; reports whether it was indexed.
    pub fn drop_index(&mut self, field: &String) -> (r: bool)
        requires
            old(self).wf(),
        ensures
            final(self).wf(),
            r == (old(self).spec_schema_of(field@) is Some),
            final(self).spec_schema_of(field@) is None,
            forall|f2: Seq<char>|
                f2 != field@ ==> #[trigger] final(self).spec_schema_of(f2) == old(
                    self,
                ).spec_schema_of(f2),
    {
        let ghost s0 = self.config@;
        match assoc_find(&self.config, field) {
            Some(i) => {
                proof {
                    lemma_assoc_remove(s0, i as int);
                }
                self.config.remove(i);
                true
            },
            None => false,
        }
    }

    /// All live points that satisfy the filter: the query planner's result,
    /// deduplicated by construction (each live point appears once).
    pub fn query_points(
        &self,
        ps: &SimplePayloadStorage,
        tracker: &SimpleIdTracker,
        f: &Filter,
    ) -> (r: Vec<(PointIdType, PointOffsetType)>)
        requires
            ps.wf(),
            tracker.wf(),
            forall|k: int|
                0 <= k < tracker.spec_links().len() ==> (#[trigger] tracker.spec_links()[k]).1
                    < ps.spec_len(),
        ensures
            r@ == spec_matching_links(*ps, *tracker, *f),
    {
        matching_links(ps, tracker, f)
    }

    /// Exact number of live points that satisfy the filter.
    pub fn count(
        &self,
        ps: &SimplePayloadStorage,
        tracker: &SimpleIdTracker,
        f: &Filter,
    ) -> (r: usize)
        requires
            ps.wf(),
            tracker.wf(),
            forall|k: int|
                0 <= k < tracker.spec_links().len() ==> (#[trigger] tracker.spec_links()[k]).1
                    < ps.spec_len(),
        ensures
            r == spec_matching_links(*ps, *tracker, *f).len(),
    {
        let links = matching_links(ps, tracker, f);
        links.len()
    }

    /// Exact number of live points that satisfy one condition.
    /// Counts the live points whose payload holds a concrete value under
    /// the field: the points a field index covers.
    #[verifier::loop_isolation(false)]
    fn count_indexed_points(
        &self,
        ps: &SimplePayloadStorage,
        tracker: &SimpleIdTracker,
        key: &String,
    ) -> (r: usize)
        requires
            ps.wf(),
            tracker.wf(),
            forall|k: int|
                0 <= k < tracker.spec_links().len() ==> (#[trigger] tracker.spec_links()[k]).1
                    < ps.spec_len(),
        ensures
            r == spec_indexed_points(*ps, *tracker, key@),
    {
        let ghost pred = |l: (PointIdType, PointOffsetType)| spec_link_indexed(*ps, key@, l);
        let links = tracker.iter_from(None);
        let n = links.len();
        let mut count: usize = 0;
        let mut k: usize = 0;
        proof {
            reveal(Seq::filter);
            assert(links@.subrange(0, 0) =~= Seq::<(PointIdType, PointOffsetType)>::empty());
            links@.subrange(0, 0).lemma_filter_len(pred);
        }
        while k < n
            invariant
                0 <= k <= n,
                n == links@.len(),
                links@ == tracker.spec_links(),
                count == links@.subrange(0, k as int).filter(pred).len(),
                count <= k,
            decreases n - k,
        {
            let pair = links[k];
            let covered = match ps.payload(pair.1) {
                Some(p) => match p.get(key) {
                    Some(values) => has_concrete_value(values),
                    None => false,
                },
                None => false,
            };
            proof {
                reveal(Seq::filter);
                let prefix = links@.subrange(0, k as int);
                let prefix1 = links@.subrange(0, k + 1);
                assert(prefix1.drop_last() =~= prefix);
                assert(prefix1.last() == links@[k as int]);
            }
            if covered {
                count = count + 1;
            }
            k = k + 1;
        }
        proof {
            assert(links@.subrange(0, n as int) =~= links@);
        }
        count
    }

    #[verifier::loop_isolation(false)]
    fn count_condition(
        &self,
        ps: &SimplePayloadStorage,
        tracker: &SimpleIdTracker,
        c: &Condition,
    ) -> (r: usize)
        requires
            ps.wf(),
            tracker.wf(),
            forall|k: int|
                0 <= k < tracker.spec_links().len() ==> (#[trigger] tracker.spec_links()[k]).1
                    < ps.spec_len(),
        ensures
            r == tracker.spec_links().filter(
                |l: (PointIdType, PointOffsetType)| spec_link_matches_condition(*ps, *c, l),
            ).len(),
    {
        let ghost pred = |l: (PointIdType, PointOffsetType)| spec_link_matches_condition(
            *ps,
            *c,
            l,
        );
        let links = tracker.iter_from(None);
        let n = links.len();
        let mut count: usize = 0;
        let mut k: usize = 0;
        proof {
            reveal(Seq::filter);
            assert(links@.subrange(0, 0) =~= Seq::<(PointIdType, PointOffsetType)>::empty());
            links@.subrange(0, 0).lemma_filter_len(pred);
        }
        while k < n
            invariant
                0 <= k <= n,
                n == links@.len(),
                links@ == tracker.spec_links(),
                count == links@.subrange(0, k as int).filter(pred).len(),
                count <= k,
            decreases n - k,
        {
            let pair = links[k];
            let matched = match ps.payload(pair.1) {
                Some(p) => c.check(p, &pair.0),
                None => false,
            };
            proof {
                reveal(Seq::filter);
                let prefix = links@.subrange(0, k as int);
                let prefix1 = links@.subrange(0, k + 1);
                assert(prefix1.drop_last() =~= prefix);
                assert(prefix1.last() == links@[k as int]);
            }
            if matched {
                count = count + 1;
            }
            k = k + 1;
        }
        proof {
            assert(links@.subrange(0, n as int) =~= links@);
        }
        count
    }

    /// Estimates how many points one condition matches. Field conditions on
    /// indexed fields and id sets are counted exactly; emptiness and null
    /// checks on an indexed field span zero up to the points the index does
    /// not cover; a field without an index gives the unknown estimate; a
    /// nested filter is estimated recursively by the combination rules.
    pub fn condition_cardinality(
        &self,
        ps: &SimplePayloadStorage,
        tracker: &SimpleIdTracker,
        c: &Condition,
        total: usize,
    ) -> (r: CardinalityEstimation)
        requires
            ps.wf(),
            tracker.wf(),
            self.wf(),
            total == tracker.spec_links().len(),
            forall|k: int|
                0 <= k < tracker.spec_links().len() ==> (#[trigger] tracker.spec_links()[k]).1
                    < ps.spec_len(),
        ensures
            r.wf(total as nat),
            (r.min as int, r.exp as int, r.max as int) == spec_condition_estimate(
                *self,
                *ps,
                *tracker,
                *c,
                total as int,
            ),
        decreases *c,
    {
        match c {
            Condition::Field(fc) => {
                let indexed = assoc_find(&self.config, &fc.key).is_some();
                if indexed {
                    let count = self.count_condition(ps, tracker, c);
                    proof {
                        let pred = |l: (PointIdType, PointOffsetType)|
                            spec_link_matches_condition(*ps, *c, l);
                        tracker.spec_links().lemma_filter_len(pred);
                    }
                    CardinalityEstimation::exact(count)
                } else {
                    CardinalityEstimation::unknown(total)
                }
            },
            Condition::Nested(f) => self.estimate_cardinality(ps, tracker, f, total),
            Condition::IsEmpty(ic) => {
                let indexed = assoc_find(&self.config, &ic.key).is_some();
                if indexed {
                    let covered = self.count_indexed_points(ps, tracker, &ic.key);
                    proof {
                        let pred = |l: (PointIdType, PointOffsetType)| spec_link_indexed(
                            *ps,
                            ic.key@,
                            l,
                        );
                        tracker.spec_links().lemma_filter_len(pred);
                    }
                    let uncovered = total - covered;
                    CardinalityEstimation { min: 0, exp: uncovered, max: uncovered }
                } else {
                    CardinalityEstimation::unknown(total)
                }
            },
            Condition::IsNull(ic) => {
                let indexed = assoc_find(&self.config, &ic.key).is_some();
                if indexed {
                    let covered = self.count_indexed_points(ps, tracker, &ic.key);
                    proof {
                        let pred = |l: (PointIdType, PointOffsetType)| spec_link_indexed(
                            *ps,
                            ic.key@,
                            l,
                        );
                        tracker.spec_links().lemma_filter_len(pred);
                    }
                    let uncovered = total - covered;
                    CardinalityEstimation { min: 0, exp: uncovered, max: uncovered }
                } else {
                    CardinalityEstimation::unknown(total)
                }
            },
            _ => {
                let count = self.count_condition(ps, tracker, c);
                proof {
                    let pred = |l: (PointIdType, PointOffsetType)| spec_link_matches_condition(
                        *ps,
                        *c,
                        l,
                    );
                    tracker.spec_links().lemma_filter_len(pred);
                }
                CardinalityEstimation::exact(count)
            },
        }
    }

    /// Estimates the cardinality of a whole filter, combining the
    /// conditions' estimates: `must` intersects, `should` unions, and
    /// `must_not` inverts around the total, with the expected value clamped
    /// into the bounds.
    #[verifier::loop_isolation(false)]
    pub fn estimate_cardinality(
        &self,
        ps: &SimplePayloadStorage,
        tracker: &SimpleIdTracker,
        f: &Filter,
        total: usize,
    ) -> (r: CardinalityEstimation)
        requires
            ps.wf(),
            tracker.wf(),
            self.wf(),
            total == tracker.spec_links().len(),
            forall|k: int|
                0 <= k < tracker.spec_links().len() ==> (#[trigger] tracker.spec_links()[k]).1
                    < ps.spec_len(),
        ensures
            r.wf(total as nat),
            (r.min as int, r.exp as int, r.max as int) == spec_filter_estimate(
                *self,
                *ps,
                *tracker,
                *f,
                total as int,
            ),
        decreases *f,
    {
        let ghost goal_must = spec_fold_must_est(
            *self,
            *ps,
            *tracker,
            (total as int, total as int, total as int),
            f.must@,
            total as int,
        );
        let mut est = CardinalityEstimation { min: total, exp: total, max: total };
        let mut have_clause = false;

        let n_must = f.must.len();
        let mut k: usize = 0;
        proof {
            assert(f.must@.subrange(0, n_must as int) =~= f.must@);
        }
        while k < n_must
            invariant
                0 <= k <= n_must,
                n_must == f.must@.len(),
                est.wf(total as nat),
                have_clause == (k > 0),
                spec_fold_must_est(
                    *self,
                    *ps,
                    *tracker,
                    (est.min as int, est.exp as int, est.max as int),
                    f.must@.subrange(k as int, n_must as int),
                    total as int,
                ) == goal_must,
            decreases n_must - k,
        {
            proof {
                assert(f.must@.subrange(k as int, n_must as int).subrange(
                    1,
                    (n_must - k) as int,
                ) =~= f.must@.subrange(k + 1, n_must as int));
                assert(f.must@.subrange(k as int, n_must as int)[0] == f.must@[k as int]);
            }
            let e = self.condition_cardinality(ps, tracker, &f.must[k], total);
            est = combine_must(est, e, total);
            have_clause = true;
            k = k + 1;
        }
        proof {
            assert((est.min as int, est.exp as int, est.max as int) == goal_must);
        }

        if f.should.len() > 0 {
            let ghost goal_should = spec_fold_should_est(
                *self,
                *ps,
                *tracker,
                (0, 0, 0),
                f.should@,
                total as int,
            );
            let mut should_est = CardinalityEstimation::exact(0);
            let n_should = f.should.len();
            let mut k2: usize = 0;
            proof {
                assert(f.should@.subrange(0, n_should as int) =~= f.should@);
            }
            while k2 < n_should
                invariant
                    0 <= k2 <= n_should,
                    n_should == f.should@.len(),
                    should_est.wf(total as nat),
                    spec_fold_should_est(
                        *self,
                        *ps,
                        *tracker,
                        (should_est.min as int, should_est.exp as int, should_est.max as int),
                        f.should@.subrange(k2 as int, n_should as int),
                        total as int,
                    ) == goal_should,
                decreases n_should - k2,
            {
                proof {
                    assert(f.should@.subrange(k2 as int, n_should as int).subrange(
                        1,
                        (n_should - k2) as int,
                    ) =~= f.should@.subrange(k2 + 1, n_should as int));
                    assert(f.should@.subrange(k2 as int, n_should as int)[0]
                        == f.should@[k2 as int]);
                }
                let e = self.condition_cardinality(ps, tracker, &f.should[k2], total);
                should_est = combine_should(should_est, e, total);
                k2 = k2 + 1;
            }
            est = combine_must(est, should_est, total);
            have_clause = true;
        }

        let ghost hc0 = have_clause;
        let ghost after_should = (est.min as int, est.exp as int, est.max as int);
        let ghost goal_not = spec_fold_not_est(
            *self,
            *ps,
            *tracker,
            after_should,
            f.must_not@,
            total as int,
        );
        let n_not = f.must_not.len();
        let mut k3: usize = 0;
        proof {
            assert(f.must_not@.subrange(0, n_not as int) =~= f.must_not@);
        }
        while k3 < n_not
            invariant
                0 <= k3 <= n_not,
                n_not == f.must_not@.len(),
                est.wf(total as nat),
                have_clause == (hc0 || k3 > 0),
                spec_fold_not_est(
                    *self,
                    *ps,
                    *tracker,
                    (est.min as int, est.exp as int, est.max as int),
                    f.must_not@.subrange(k3 as int, n_not as int),
                    total as int,
                ) == goal_not,
            decreases n_not - k3,
        {
            proof {
                assert(f.must_not@.subrange(k3 as int, n_not as int).subrange(
                    1,
                    (n_not - k3) as int,
                ) =~= f.must_not@.subrange(k3 + 1, n_not as int));
                assert(f.must_not@.subrange(k3 as int, n_not as int)[0]
                    == f.must_not@[k3 as int]);
            }
            let e = self.condition_cardinality(ps, tracker, &f.must_not[k3], total);
            let inverted = invert_estimate(e, total);
            est = combine_must(est, inverted, total);
            have_clause = true;
            k3 = k3 + 1;
        }
        proof {
            assert((est.min as int, est.exp as int, est.max as int) == goal_not);
            assert(goal_not == spec_filter_estimate(*self, *ps, *tracker, *f, total as int));
        }

        if have_clause {
            est
        } else {
            proof {
                assert(f.must@.len() == 0 && f.should@.len() == 0 && f.must_not@.len() == 0);
            }
            CardinalityEstimation::exact(total)
        }
    }
}

/// Clamps a value into `[lo, hi]`.
fn clamp_usize(x: usize, lo: usize, hi: usize) -> (r: usize)
    requires
        lo <= hi,
    ensures
        lo <= r <= hi,
        x < lo ==> r == lo,
        x > hi ==> r == hi,
        lo <= x <= hi ==> r == x,
{
    if x < lo {
        lo
    } else if x > hi {
        hi
    } else {
        x
    }
}

/// Intersection of two estimates:
/// `min = max(0, a.min + b.min - total)`, `exp = a.exp * b.exp / total`
/// (clamped into the bounds), `max = min(a.max, b.max)`.
pub fn combine_must(
    a: CardinalityEstimation,
    b: CardinalityEstimation,
    total: usize,
) -> (r: CardinalityEstimation)
    requires
        a.wf(total as nat),
        b.wf(total as nat),
    ensures
        r.wf(total as nat),
        r.min as int == (if a.min + b.min > total {
            a.min + b.min - total
        } else {
            0
        }),
        r.max == (if a.max <= b.max {
            a.max
        } else {
            b.max
        }),
        (r.min as int, r.exp as int, r.max as int) == spec_combine_must_est(
            (a.min as int, a.exp as int, a.max as int),
            (b.min as int, b.exp as int, b.max as int),
            total as int,
        ),
    {
    let min128: u128 = a.min as u128 + b.min as u128;
    let min_v: usize = if min128 > total as u128 {
        (min128 - total as u128) as usize
    } else {
        0
    };
    let max_v: usize = if a.max <= b.max {
        a.max
    } else {
        b.max
    };
    proof {
        assert((a.exp as int) * (b.exp as int) < 0x1_0000_0000_0000_0000_0000_0000_0000_0000)
            by (nonlinear_arith)
            requires
                0 <= a.exp as int <= usize::MAX as int,
                usize::MAX as int <= 0xffff_ffff_ffff_ffff,
                0 <= b.exp as int <= usize::MAX as int,
        ;
    }
    let exp_raw: u128 = if total > 0 {
        (a.exp as u128) * (b.exp as u128) / (total as u128)
    } else {
        0
    };
    proof {
        assert((a.exp as int) * (b.exp as int) <= (total as int) * (total as int))
            by (nonlinear_arith)
            requires
                a.exp <= total,
                b.exp <= total,
        ;
        if total > 0 {
            assert((a.exp as int) * (b.exp as int) / (total as int) <= total as int)
                by (nonlinear_arith)
                requires
                    (a.exp as int) * (b.exp as int) <= (total as int) * (total as int),
                    total > 0,
            ;
        }
        assert(min_v <= max_v);
    }
    let exp_v: usize = clamp_usize(exp_raw as usize, min_v, max_v);
    CardinalityEstimation { min: min_v, exp: exp_v, max: max_v }
}

/// Union of two estimates:
/// `min = max(a.min, b.min)`, `exp = a.exp + b.exp - a.exp * b.exp / total`
/// (clamped into the bounds), `max = min(total, a.max + b.max)`.
pub fn combine_should(
    a: CardinalityEstimation,
    b: CardinalityEstimation,
    total: usize,
) -> (r: CardinalityEstimation)
    requires
        a.wf(total as nat),
        b.wf(total as nat),
    ensures
        r.wf(total as nat),
        r.min == (if a.min >= b.min {
            a.min
        } else {
            b.min
        }),
        r.max as int == (if a.max + b.max <= total {
            a.max + b.max
        } else {
            total as int
        }),
        (r.min as int, r.exp as int, r.max as int) == spec_combine_should_est(
            (a.min as int, a.exp as int, a.max as int),
            (b.min as int, b.exp as int, b.max as int),
            total as int,
        ),
    {
    let min_v: usize = if a.min >= b.min {
        a.min
    } else {
        b.min
    };
    let max128: u128 = a.max as u128 + b.max as u128;
    let max_v: usize = if max128 <= total as u128 {
        (a.max) + (b.max)
    } else {
        total
    };
    proof {
        assert((a.exp as int) * (b.exp as int) < 0x1_0000_0000_0000_0000_0000_0000_0000_0000)
            by (nonlinear_arith)
            requires
                0 <= a.exp as int <= usize::MAX as int,
                usize::MAX as int <= 0xffff_ffff_ffff_ffff,
                0 <= b.exp as int <= usize::MAX as int,
        ;
    }
    let prod_over: u128 = if total > 0 {
        (a.exp as u128) * (b.exp as u128) / (total as u128)
    } else {
        0
    };
    proof {
        assert((a.exp as int) * (b.exp as int) <= (total as int) * (total as int))
            by (nonlinear_arith)
            requires
                a.exp <= total,
                b.exp <= total,
        ;
        if total > 0 {
            assert((a.exp as int) * (b.exp as int) / (total as int) <= total as int)
                by (nonlinear_arith)
                requires
                    (a.exp as int) * (b.exp as int) <= (total as int) * (total as int),
                    total > 0,
            ;
            assert((a.exp as int) * (b.exp as int) / (total as int) <= (a.exp as int))
                by (nonlinear_arith)
                requires
                    0 <= a.exp,
                    0 <= b.exp <= total,
                    total > 0,
            ;
        }
        assert(min_v <= max_v);
    }
    let exp128: u128 = a.exp as u128 + b.exp as u128 - prod_over;
    let exp_raw: usize = if exp128 > total as u128 {
        total
    } else {
        exp128 as usize
    };
    let exp_v = clamp_usize(exp_raw, min_v, max_v);
    CardinalityEstimation { min: min_v, exp: exp_v, max: max_v }
}

/// Negation of an estimate around the total.
pub fn invert_estimate(a: CardinalityEstimation, total: usize) -> (r: CardinalityEstimation)
    requires
        a.wf(total as nat),
    ensures
        r.wf(total as nat),
        r.min as int == total - a.max,
        r.exp as int == total - a.exp,
        r.max as int == total - a.min,
        (r.min as int, r.exp as int, r.max as int) == spec_invert_est(
            (a.min as int, a.exp as int, a.max as int),
            total as int,
        ),
{
    CardinalityEstimation { min: total - a.max, exp: total - a.exp, max: total - a.min }
}

/// Brute-force payload index: no per-field structures, every question is
/// answered by scanning the payload storage.
pub struct PlainPayloadIndex {
}

impl PlainPayloadIndex {
    pub fn new() -> (r: Self) {
        PlainPayloadIndex {  }
    }

    /// Exact cardinality, by counting the matching points.
    #[verifier::loop_isolation(false)]
    pub fn estimate_cardinality(
        &self,
        ps: &SimplePayloadStorage,
        tracker: &SimpleIdTracker,
        f: &Filter,
    ) -> (r: CardinalityEstimation)
        requires
            ps.wf(),
            tracker.wf(),
            forall|k: int|
                0 <= k < tracker.spec_links().len() ==> (#[trigger] tracker.spec_links()[k]).1
                    < ps.spec_len(),
        ensures
            r.min == spec_matching_links(*ps, *tracker, *f).len(),
            r.exp == r.min && r.max == r.min,
    {
        let links = matching_links(ps, tracker, f);
        CardinalityEstimation::exact(links.len())
    }

    /// All live points that satisfy the filter.
    pub fn query_points(
        &self,
        ps: &SimplePayloadStorage,
        tracker: &SimpleIdTracker,
        f: &Filter,
    ) -> (r: Vec<(PointIdType, PointOffsetType)>)
        requires
            ps.wf(),
            tracker.wf(),
            forall|k: int|
                0 <= k < tracker.spec_links().len() ==> (#[trigger] tracker.spec_links()[k]).1
                    < ps.spec_len(),
        ensures
            r@ == spec_matching_links(*ps, *tracker, *f),
    {
        matching_links(ps, tracker, f)
    }
}

} // verus!
