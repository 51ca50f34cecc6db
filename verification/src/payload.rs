//! Payloads (per-point structured documents) and the filter language over
//! them: field match and range conditions, is-empty / is-null checks, id
//! sets, and nested boolean combinations.

use vstd::prelude::*;
use crate::assoc::{
    assoc_keys_unique, assoc_get, assoc_find, lemma_assoc_update, lemma_assoc_push,
    lemma_assoc_remove, lemma_assoc_index_of,
};
use crate::types::PointIdType;

verus! {

/// One value of a payload field.
#[derive(Clone, Debug)]
pub enum PayloadValue {
    Null,
    Bool(bool),
    Integer(i64),
    Keyword(String),
}

impl PayloadValue {
    /// Copy that is provably equal to the original.
    pub fn duplicate(&self) -> (r: Self)
        ensures
            r == *self,
    {
        match self {
            PayloadValue::Null => PayloadValue::Null,
            PayloadValue::Bool(b) => PayloadValue::Bool(*b),
            PayloadValue::Integer(i) => PayloadValue::Integer(*i),
            PayloadValue::Keyword(s) => PayloadValue::Keyword(s.clone()),
        }
    }
}

/// Copy of a value list that is provably equal to the original.
pub fn duplicate_values(values: &Vec<PayloadValue>) -> (r: Vec<PayloadValue>)
    ensures
        r@ == values@,
{
    let mut r: Vec<PayloadValue> = Vec::new();
    let n = values.len();
    let mut i: usize = 0;
    while i < n
        invariant
            0 <= i <= n,
            n == values@.len(),
            r@ =~= values@.subrange(0, i as int),
        decreases n - i,
    {
        r.push(values[i].duplicate());
        proof {
            assert(r@ =~= values@.subrange(0, i + 1));
        }
        i = i + 1;
    }
    proof {
        assert(r@ =~= values@);
    }
    r
}

/// A document attached to one point: a list of fields, each holding one or
/// more values. Keys are unique.
pub struct Payload {
    pub entries: Vec<(String, Vec<PayloadValue>)>,
}

impl Payload {
    pub open spec fn wf(&self) -> bool {
        assoc_keys_unique(self.entries@)
    }

    /// Values stored under `key`, if the field is present.
    pub open spec fn spec_values(&self, key: Seq<char>) -> Option<Seq<PayloadValue>> {
        match assoc_get(self.entries@, key) {
            Some(v) => Some(v@),
            None => None,
        }
    }

    pub fn new() -> (r: Self)
        ensures
            r.wf(),
            r.entries@.len() == 0,
            forall|key: Seq<char>| #[trigger] r.spec_values(key) is None,
    {
        Payload { entries: Vec::new() }
    }

    pub fn is_empty(&self) -> (r: bool)
        ensures
            r == (self.entries@.len() == 0),
    {
        self.entries.len() == 0
    }

    /// The values of a field, or `None` when absent.
    pub fn get(&self, key: &String) -> (r: Option<&Vec<PayloadValue>>)
        ensures
            match r {
                Some(v) => self.spec_values(key@) == Some(v@),
                None => self.spec_values(key@) is None,
            },
    {
        match assoc_find(&self.entries, key) {
            Some(i) => Some(&self.entries[i].1),
            None => None,
        }
    }

    /// Stores (or replaces) the values of a field.
    pub fn set(&mut self, key: String, values: Vec<PayloadValue>)
        requires
            old(self).wf(),
        ensures
            final(self).wf(),
            final(self).spec_values(key@) == Some(values@),
            forall|key2: Seq<char>|
                key2 != key@ ==> #[trigger] final(self).spec_values(key2) == old(
                    self,
                ).spec_values(key2),
    {
        let ghost s0 = self.entries@;
        match assoc_find(&self.entries, &key) {
            Some(i) => {
                proof {
                    lemma_assoc_update(s0, i as int, (key, values));
                }
                self.entries.set(i, (key, values));
            },
            None => {
                proof {
                    lemma_assoc_push(s0, (key, values));
                }
                self.entries.push((key, values));
            },
        }
    }

    /// Removes a field; reports whether it was present.
    pub fn remove(&mut self, key: &String) -> (r: bool)
        requires
            old(self).wf(),
        ensures
            final(self).wf(),
            r == (old(self).spec_values(key@) is Some),
            final(self).spec_values(key@) is None,
            forall|key2: Seq<char>|
                key2 != key@ ==> #[trigger] final(self).spec_values(key2) == old(
                    self,
                ).spec_values(key2),
    {
        let ghost s0 = self.entries@;
        match assoc_find(&self.entries, key) {
            Some(i) => {
                proof {
                    lemma_assoc_remove(s0, i as int);
                }
                self.entries.remove(i);
                true
            },
            None => false,
        }
    }

    /// Copy that is provably equal in every field lookup.
    pub fn duplicate(&self) -> (r: Self)
        requires
            self.wf(),
        ensures
            r.wf(),
            r.entries@.len() == self.entries@.len(),
            forall|key: Seq<char>| #[trigger] r.spec_values(key) == self.spec_values(key),
    {
        let mut entries: Vec<(String, Vec<PayloadValue>)> = Vec::new();
        let n = self.entries.len();
        let mut i: usize = 0;
        while i < n
            invariant
                0 <= i <= n,
                n == self.entries@.len(),
                entries@.len() == i,
                forall|j: int|
                    0 <= j < i ==> (#[trigger] entries@[j]).0@ == self.entries@[j].0@
                        && entries@[j].1@ == self.entries@[j].1@,
            decreases n - i,
        {
            let key = self.entries[i].0.clone();
            let values = duplicate_values(&self.entries[i].1);
            entries.push((key, values));
            i = i + 1;
        }
        let r = Payload { entries };
        proof {
            assert(r.wf());
            assert forall|key: Seq<char>| #[trigger] r.spec_values(key) == self.spec_values(
                key,
            ) by {
                lemma_assoc_same_keys(r.entries@, self.entries@, key);
            }
        }
        r
    }

    /// Writes every field of `other` over this payload, keeping the fields
    /// `other` does not mention.
    pub fn merge(&mut self, other: &Payload)
        requires
            old(self).wf(),
            other.wf(),
        ensures
            final(self).wf(),
            forall|key: Seq<char>|
                #[trigger] final(self).spec_values(key) == (if other.spec_values(key) is Some {
                    other.spec_values(key)
                } else {
                    old(self).spec_values(key)
                }),
    {
        let n = other.entries.len();
        let mut i: usize = 0;
        while i < n
            invariant
                0 <= i <= n,
                n == other.entries@.len(),
                other.wf(),
                self.wf(),
                forall|key: Seq<char>|
                    #[trigger] self.spec_values(key) == (match assoc_get(
                        other.entries@.subrange(0, i as int),
                        key,
                    ) {
                        Some(v) => Some(v@),
                        None => old(self).spec_values(key),
                    }),
            decreases n - i,
        {
            let ghost prefix = other.entries@.subrange(0, i as int);
            let key = other.entries[i].0.clone();
            let values = duplicate_values(&other.entries[i].1);
            proof {
                assert(assoc_get(prefix, key@) is None) by {
                    lemma_assoc_index_of(prefix, key@);
                    match crate::assoc::assoc_index_of(prefix, key@) {
                        Some(j) => {
                            assert(prefix[j] == other.entries@[j]);
                            assert(other.entries@[j].0@ != other.entries@[i as int].0@);
                        },
                        None => {},
                    }
                }
                assert(assoc_keys_unique(prefix)) by {
                    assert(forall|a: int|
                        0 <= a < prefix.len() ==> (#[trigger] prefix[a]) == other.entries@[a]);
                }
                lemma_assoc_push(prefix, other.entries@[i as int]);
                assert(prefix.push(other.entries@[i as int]) =~= other.entries@.subrange(
                    0,
                    i + 1,
                ));
            }
            self.set(key, values);
            i = i + 1;
        }
        proof {
            assert(other.entries@.subrange(0, n as int) =~= other.entries@);
        }
    }
}

/// Two lists whose entries agree pairwise on keys and value views give the
/// same `spec_values`-style lookups.
proof fn lemma_assoc_same_keys(
    a: Seq<(String, Vec<PayloadValue>)>,
    b: Seq<(String, Vec<PayloadValue>)>,
    key: Seq<char>,
)
    requires
        a.len() == b.len(),
        forall|j: int| 0 <= j < a.len() ==> (#[trigger] a[j]).0@ == b[j].0@ && a[j].1@ == b[j].1@,
    ensures
        match assoc_get(a, key) {
            Some(v) => assoc_get(b, key) is Some && assoc_get(b, key)->Some_0@ == v@,
            None => assoc_get(b, key) is None,
        },
    decreases a.len(),
{
    if a.len() > 0 {
        if a[0].0@ == key {
        } else {
            let ta = a.subrange(1, a.len() as int);
            let tb = b.subrange(1, b.len() as int);
            assert(forall|j: int|
                0 <= j < ta.len() ==> (#[trigger] ta[j]) == a[j + 1] && tb[j] == b[j + 1]);
            lemma_assoc_same_keys(ta, tb, key);
        }
    }
}

/// A value constraint of a field condition.
pub enum Match {
    Keyword(String),
    Integer(i64),
    Boolean(bool),
}

/// A numeric interval constraint; every given bound must hold.
#[derive(Clone, Copy, PartialEq, Eq, Structural, Debug)]
pub struct RangeInterval {
    pub lt: Option<i64>,
    pub gt: Option<i64>,
    pub gte: Option<i64>,
    pub lte: Option<i64>,
}

/// A condition on one payload field.
pub struct FieldCondition {
    pub key: String,
    pub match_value: Option<Match>,
    pub range: Option<RangeInterval>,
}

/// Matches points whose field is absent or holds no values.
pub struct IsEmptyCondition {
    pub key: String,
}

/// Matches points whose field holds a null value.
pub struct IsNullCondition {
    pub key: String,
}

/// One node of a filter tree.
pub enum Condition {
    Field(FieldCondition),
    IsEmpty(IsEmptyCondition),
    IsNull(IsNullCondition),
    HasId(Vec<PointIdType>),
    Nested(Box<Filter>),
}

/// A boolean combination of conditions: all of `must`, none of `must_not`,
/// and at least one of `should` when `should` is not empty.
pub struct Filter {
    pub must: Vec<Condition>,
    pub should: Vec<Condition>,
    pub must_not: Vec<Condition>,
}

/// Whether one stored value satisfies a match constraint.
pub open spec fn spec_match_value(m: Match, v: PayloadValue) -> bool {
    match (m, v) {
        (Match::Keyword(k), PayloadValue::Keyword(s)) => k@ == s@,
        (Match::Integer(i), PayloadValue::Integer(x)) => i == x,
        (Match::Boolean(b), PayloadValue::Bool(x)) => b == x,
        _ => false,
    }
}

/// Whether one stored value lies in the interval.
pub open spec fn spec_in_range(r: RangeInterval, v: PayloadValue) -> bool {
    match v {
        PayloadValue::Integer(x) => {
            &&& (r.lt is Some ==> x < r.lt->Some_0)
            &&& (r.gt is Some ==> x > r.gt->Some_0)
            &&& (r.gte is Some ==> x >= r.gte->Some_0)
            &&& (r.lte is Some ==> x <= r.lte->Some_0)
        },
        _ => false,
    }
}

/// The values of a field, with an absent field read as no values.
pub open spec fn spec_values_or_empty(values: Option<Seq<PayloadValue>>) -> Seq<PayloadValue> {
    match values {
        Some(v) => v,
        None => Seq::<PayloadValue>::empty(),
    }
}

/// Whether a field's values satisfy a field condition: every given
/// constraint must be satisfied by at least one value.
pub open spec fn spec_field_matches(fc: FieldCondition, vs: Seq<PayloadValue>) -> bool {
    &&& (fc.match_value is Some || fc.range is Some)
    &&& (fc.match_value is Some ==> exists|i: int|
        0 <= i < vs.len() && spec_match_value(fc.match_value->Some_0, #[trigger] vs[i]))
    &&& (fc.range is Some ==> exists|i: int|
        0 <= i < vs.len() && spec_in_range(fc.range->Some_0, #[trigger] vs[i]))
}

/// Whether a point (payload plus external id) satisfies one condition.
pub open spec fn spec_condition_matches(c: Condition, p: Payload, ext: PointIdType) -> bool
    decreases c,
{
    match c {
        Condition::Field(fc) => spec_field_matches(fc, spec_values_or_empty(p.spec_values(fc.key@))),
        Condition::IsEmpty(ic) => match p.spec_values(ic.key@) {
            Some(vs) => vs.len() == 0,
            None => true,
        },
        Condition::IsNull(ic) => match p.spec_values(ic.key@) {
            Some(vs) => exists|i: int| 0 <= i < vs.len() && (#[trigger] vs[i]) is Null,
            None => false,
        },
        Condition::HasId(ids) => ids@.contains(ext),
        Condition::Nested(f) => spec_filter_matches(*f, p, ext),
    }
}

/// All conditions hold.
pub open spec fn spec_all_match(cs: Seq<Condition>, p: Payload, ext: PointIdType) -> bool
    decreases cs,
{
    if cs.len() == 0 {
        true
    } else {
        spec_condition_matches(cs[0], p, ext) && spec_all_match(
            cs.subrange(1, cs.len() as int),
            p,
            ext,
        )
    }
}

/// At least one condition holds.
pub open spec fn spec_any_match(cs: Seq<Condition>, p: Payload, ext: PointIdType) -> bool
    decreases cs,
{
    if cs.len() == 0 {
        false
    } else {
        spec_condition_matches(cs[0], p, ext) || spec_any_match(
            cs.subrange(1, cs.len() as int),
            p,
            ext,
        )
    }
}

/// Whether a point satisfies a whole filter.
pub open spec fn spec_filter_matches(f: Filter, p: Payload, ext: PointIdType) -> bool
    decreases f,
{
    &&& spec_all_match(f.must@, p, ext)
    &&& (f.should@.len() == 0 || spec_any_match(f.should@, p, ext))
    &&& !spec_any_match(f.must_not@, p, ext)
}

impl Filter {
    /// A filter with no conditions: it matches every point.
    pub fn empty() -> (r: Filter)
        ensures
            r.must@.len() == 0,
            r.should@.len() == 0,
            r.must_not@.len() == 0,
            forall|p: Payload, ext: PointIdType| #[trigger] spec_filter_matches(r, p, ext),
    {
        let r = Filter { must: Vec::new(), should: Vec::new(), must_not: Vec::new() };
        proof {
            assert forall|p: Payload, ext: PointIdType| #[trigger] spec_filter_matches(
                r,
                p,
                ext,
            ) by {
                assert(spec_all_match(r.must@, p, ext));
                assert(!spec_any_match(r.must_not@, p, ext));
            }
        }
        r
    }

    /// A filter with a single `must` condition.
    pub fn new_must(c: Condition) -> (r: Filter)
        ensures
            r.must@ =~= seq![c],
            r.should@.len() == 0,
            r.must_not@.len() == 0,
    {
        let mut must: Vec<Condition> = Vec::new();
        must.push(c);
        Filter { must, should: Vec::new(), must_not: Vec::new() }
    }

    /// Decides whether the point satisfies this filter.
    pub fn check(&self, payload: &Payload, ext: &PointIdType) -> (r: bool)
        ensures
            r == spec_filter_matches(*self, *payload, *ext),
        decreases *self,
    {
        let must_ok = check_all(&self.must, payload, ext);
        let should_ok = self.should.len() == 0 || check_any(&self.should, payload, ext);
        let must_not_ok = !check_any(&self.must_not, payload, ext);
        must_ok && should_ok && must_not_ok
    }
}

impl Condition {
    /// Decides whether the point satisfies this condition.
    pub fn check(&self, payload: &Payload, ext: &PointIdType) -> (r: bool)
        ensures
            r == spec_condition_matches(*self, *payload, *ext),
        decreases *self,
    {
        match self {
            Condition::Field(fc) => {
                let values = payload.get(&fc.key);
                check_field(fc, values)
            },
            Condition::IsEmpty(ic) => {
                match payload.get(&ic.key) {
                    Some(vs) => vs.len() == 0,
                    None => true,
                }
            },
            Condition::IsNull(ic) => {
                match payload.get(&ic.key) {
                    Some(vs) => {
                        let n = vs.len();
                        let mut i: usize = 0;
                        let mut found = false;
                        while i < n
                            invariant
                                0 <= i <= n,
                                n == vs@.len(),
                                found == exists|j: int|
                                    0 <= j < i && (#[trigger] vs@[j]) is Null,
                            decreases n - i,
                        {
                            if matches!(&vs[i], PayloadValue::Null) {
                                found = true;
                            }
                            i = i + 1;
                        }
                        found
                    },
                    None => false,
                }
            },
            Condition::HasId(ids) => {
                let n = ids.len();
                let mut i: usize = 0;
                let mut found = false;
                while i < n
                    invariant
                        0 <= i <= n,
                        n == ids@.len(),
                        found == exists|j: int| 0 <= j < i && ids@[j] == *ext,
                    decreases n - i,
                {
                    if ids[i] == *ext {
                        found = true;
                    }
                    i = i + 1;
                }
                proof {
                    if found {
                        let j = choose|j: int| 0 <= j < n && ids@[j] == *ext;
                        assert(ids@.contains(*ext));
                    }
                    if ids@.contains(*ext) {
                        let j = choose|j: int| 0 <= j < ids@.len() && ids@[j] == *ext;
                        assert(0 <= j < n && ids@[j] == *ext);
                    }
                }
                found
            },
            Condition::Nested(f) => f.check(payload, ext),
        }
    }
}

/// Decides whether one value satisfies a match constraint.
fn check_match_value(m: &Match, v: &PayloadValue) -> (r: bool)
    ensures
        r == spec_match_value(*m, *v),
{
    match (m, v) {
        (Match::Keyword(k), PayloadValue::Keyword(s)) => *k == *s,
        (Match::Integer(i), PayloadValue::Integer(x)) => *i == *x,
        (Match::Boolean(b), PayloadValue::Bool(x)) => *b == *x,
        _ => false,
    }
}

/// Decides whether one value lies in the interval.
fn check_in_range(r: &RangeInterval, v: &PayloadValue) -> (res: bool)
    ensures
        res == spec_in_range(*r, *v),
{
    match v {
        PayloadValue::Integer(x) => {
            let lt_ok = match r.lt {
                Some(b) => *x < b,
                None => true,
            };
            let gt_ok = match r.gt {
                Some(b) => *x > b,
                None => true,
            };
            let gte_ok = match r.gte {
                Some(b) => *x >= b,
                None => true,
            };
            let lte_ok = match r.lte {
                Some(b) => *x <= b,
                None => true,
            };
            lt_ok && gt_ok && gte_ok && lte_ok
        },
        _ => false,
    }
}

/// Decides whether a field's values satisfy a field condition.
pub fn check_field(fc: &FieldCondition, values: Option<&Vec<PayloadValue>>) -> (r: bool)
    ensures
        r == spec_field_matches(
            *fc,
            spec_values_or_empty(
                match values {
                    Some(v) => Some(v@),
                    None => None,
                },
            ),
        ),
{
    let ghost vs = spec_values_or_empty(
        match values {
            Some(v) => Some(v@),
            None => None,
        },
    );
    if fc.match_value.is_none() && fc.range.is_none() {
        return false;
    }
    let match_ok = match &fc.match_value {
        None => true,
        Some(m) => {
            match values {
                None => false,
                Some(v) => {
                    let n = v.len();
                    let mut i: usize = 0;
                    let mut found = false;
                    while i < n
                        invariant
                            0 <= i <= n,
                            n == v@.len(),
                            v@ == vs,
                            found == exists|j: int|
                                0 <= j < i && spec_match_value(*m, #[trigger] vs[j]),
                        decreases n - i,
                    {
                        if check_match_value(m, &v[i]) {
                            found = true;
                        }
                        i = i + 1;
                    }
                    found
                },
            }
        },
    };
    let range_ok = match &fc.range {
        None => true,
        Some(rng) => {
            match values {
                None => false,
                Some(v) => {
                    let n = v.len();
                    let mut i: usize = 0;
                    let mut found = false;
                    while i < n
                        invariant
                            0 <= i <= n,
                            n == v@.len(),
                            v@ == vs,
                            found == exists|j: int|
                                0 <= j < i && spec_in_range(*rng, #[trigger] vs[j]),
                        decreases n - i,
                    {
                        if check_in_range(rng, &v[i]) {
                            found = true;
                        }
                        i = i + 1;
                    }
                    found
                },
            }
        },
    };
    proof {
        if fc.match_value is Some {
            assert(match_ok == (exists|i: int|
                0 <= i < vs.len() && spec_match_value(fc.match_value->Some_0, #[trigger] vs[i])));
        }
        if fc.range is Some {
            assert(range_ok == (exists|i: int|
                0 <= i < vs.len() && spec_in_range(fc.range->Some_0, #[trigger] vs[i])));
        }
    }
    let result = match_ok && range_ok;
    result
}

/// Decides `spec_all_match`.
#[verifier::loop_isolation(false)]
pub fn check_all(cs: &Vec<Condition>, payload: &Payload, ext: &PointIdType) -> (r: bool)
    ensures
        r == spec_all_match(cs@, *payload, *ext),
    decreases cs@,
{
    let n = cs.len();
    let mut i: usize = 0;
    proof {
        assert(cs@.subrange(0, n as int) =~= cs@);
    }
    while i < n
        invariant
            0 <= i <= n,
            spec_all_match(cs@, *payload, *ext) == spec_all_match(
                cs@.subrange(i as int, n as int),
                *payload,
                *ext,
            ),
        decreases n - i,
    {
        proof {
            assert(cs@.subrange(i as int, n as int).subrange(1, (n - i) as int) =~= cs@.subrange(
                i + 1,
                n as int,
            ));
        }
        if !cs[i].check(payload, ext) {
            return false;
        }
        i = i + 1;
    }
    true
}

/// Decides `spec_any_match`.
#[verifier::loop_isolation(false)]
pub fn check_any(cs: &Vec<Condition>, payload: &Payload, ext: &PointIdType) -> (r: bool)
    ensures
        r == spec_any_match(cs@, *payload, *ext),
    decreases cs@,
{
    let n = cs.len();
    let mut i: usize = 0;
    proof {
        assert(cs@.subrange(0, n as int) =~= cs@);
    }
    while i < n
        invariant
            0 <= i <= n,
            spec_any_match(cs@, *payload, *ext) == spec_any_match(
                cs@.subrange(i as int, n as int),
                *payload,
                *ext,
            ),
        decreases n - i,
    {
        proof {
            assert(cs@.subrange(i as int, n as int).subrange(1, (n - i) as int) =~= cs@.subrange(
                i + 1,
                n as int,
            ));
        }
        if cs[i].check(payload, ext) {
            return true;
        }
        i = i + 1;
    }
    false
}

} // verus!
