//! Dense vector storage of one named vector, and the exact fixed-point
//! scoring used by the indexes. Higher scores mean closer vectors.

use vstd::prelude::*;
use crate::types::{
    Distance, PointOffsetType, VectorElementType, ScoreType, VECTOR_ELEMENT_BOUND, FIXED_POINT_ONE,
};
use crate::errors::{OperationError, OperationResult};

verus! {

/// Every component's magnitude stays within the fixed-point bound.
pub open spec fn bounded_vector(v: Seq<VectorElementType>) -> bool {
    forall|i: int|
        0 <= i < v.len() ==> -VECTOR_ELEMENT_BOUND <= (#[trigger] v[i]) <= VECTOR_ELEMENT_BOUND
}

/// Dot product.
pub open spec fn spec_dot(q: Seq<VectorElementType>, v: Seq<VectorElementType>) -> int
    decreases q.len(),
{
    if q.len() == 0 || v.len() == 0 {
        0
    } else {
        q[0] * v[0] + spec_dot(q.subrange(1, q.len() as int), v.subrange(1, v.len() as int))
    }
}

pub open spec fn spec_abs(x: int) -> int {
    if x >= 0 {
        x
    } else {
        -x
    }
}

/// Sum of absolute component differences.
pub open spec fn spec_manhattan(q: Seq<VectorElementType>, v: Seq<VectorElementType>) -> int
    decreases q.len(),
{
    if q.len() == 0 || v.len() == 0 {
        0
    } else {
        spec_abs(q[0] - v[0]) + spec_manhattan(
            q.subrange(1, q.len() as int),
            v.subrange(1, v.len() as int),
        )
    }
}

/// Sum of squared component differences.
pub open spec fn spec_euclid_sq(q: Seq<VectorElementType>, v: Seq<VectorElementType>) -> int
    decreases q.len(),
{
    if q.len() == 0 || v.len() == 0 {
        0
    } else {
        (q[0] - v[0]) * (q[0] - v[0]) + spec_euclid_sq(
            q.subrange(1, q.len() as int),
            v.subrange(1, v.len() as int),
        )
    }
}

/// The similarity score of a stored vector against a query: dot product for
/// dot and cosine distance (cosine vectors are normalized on insert),
/// negated distance for the metric distances.
pub open spec fn spec_score(d: Distance, q: Seq<VectorElementType>, v: Seq<VectorElementType>) -> int {
    match d {
        Distance::Dot => spec_dot(q, v),
        Distance::Cosine => spec_dot(q, v),
        Distance::Euclid => -spec_euclid_sq(q, v),
        Distance::Manhattan => -spec_manhattan(q, v),
    }
}

/// Computes the similarity score exactly, in wide integers.
#[verifier::loop_isolation(false)]
pub fn score_vectors(
    d: Distance,
    q: &Vec<VectorElementType>,
    v: &Vec<VectorElementType>,
) -> (r: ScoreType)
    requires
        q@.len() == v@.len(),
        bounded_vector(q@),
        bounded_vector(v@),
    ensures
        r == spec_score(d, q@, v@),
{
    let n = q.len();
    let mut acc: i128 = 0;
    let mut i: usize = n;
    let ghost b2: int = 4 * (VECTOR_ELEMENT_BOUND as int) * (VECTOR_ELEMENT_BOUND as int);
    while i > 0
        invariant
            0 <= i <= n,
            n == q@.len(),
            acc == match d {
                Distance::Dot => spec_dot(
                    q@.subrange(i as int, n as int),
                    v@.subrange(i as int, n as int),
                ),
                Distance::Cosine => spec_dot(
                    q@.subrange(i as int, n as int),
                    v@.subrange(i as int, n as int),
                ),
                Distance::Euclid => -spec_euclid_sq(
                    q@.subrange(i as int, n as int),
                    v@.subrange(i as int, n as int),
                ),
                Distance::Manhattan => -spec_manhattan(
                    q@.subrange(i as int, n as int),
                    v@.subrange(i as int, n as int),
                ),
            },
            -(n as int - i as int) * b2 <= acc <= (n as int - i as int) * b2,
        decreases i,
    {
        i = i - 1;
        let a: i128 = q[i] as i128;
        let b: i128 = v[i] as i128;
        proof {
            assert(q@[i as int] == a && v@[i as int] == b);
            assert(-(VECTOR_ELEMENT_BOUND as int) <= a <= VECTOR_ELEMENT_BOUND as int);
            assert(-(VECTOR_ELEMENT_BOUND as int) <= b <= VECTOR_ELEMENT_BOUND as int);
            assert(-b2 <= a * b <= b2) by (nonlinear_arith)
                requires
                    -(VECTOR_ELEMENT_BOUND as int) <= a <= VECTOR_ELEMENT_BOUND as int,
                    -(VECTOR_ELEMENT_BOUND as int) <= b <= VECTOR_ELEMENT_BOUND as int,
                    b2 == 4 * (VECTOR_ELEMENT_BOUND as int) * (VECTOR_ELEMENT_BOUND as int),
            ;
            assert(-b2 <= (a - b) * (a - b) <= b2) by (nonlinear_arith)
                requires
                    -(VECTOR_ELEMENT_BOUND as int) <= a <= VECTOR_ELEMENT_BOUND as int,
                    -(VECTOR_ELEMENT_BOUND as int) <= b <= VECTOR_ELEMENT_BOUND as int,
                    b2 == 4 * (VECTOR_ELEMENT_BOUND as int) * (VECTOR_ELEMENT_BOUND as int),
            ;
            assert(((n - i) as int) * b2 == ((n - i - 1) as int) * b2 + b2) by (nonlinear_arith)
                requires
                    0 <= i,
                    (i as int) + 1 <= n,
            ;
            assert(((n - i) as int) * b2 <= (n as int) * b2) by (nonlinear_arith)
                requires
                    0 <= i,
                    (i as int) + 1 <= n,
                    b2 > 0,
            ;
            assert((n as int) * b2 < 0x4000_0000_0000_0000_0000_0000_0000_0000) by (nonlinear_arith)
                requires
                    0 <= n <= 0xffff_ffff_ffff_ffff,
                    b2 == 4 * (VECTOR_ELEMENT_BOUND as int) * (VECTOR_ELEMENT_BOUND as int),
            ;
            assert(q@.subrange(i as int, n as int)[0] == q@[i as int]);
            assert(v@.subrange(i as int, n as int)[0] == v@[i as int]);
            assert(q@.subrange(i as int, n as int).subrange(
                1,
                (n - i) as int,
            ) =~= q@.subrange(i + 1, n as int));
            assert(v@.subrange(i as int, n as int).subrange(
                1,
                (n - i) as int,
            ) =~= v@.subrange(i + 1, n as int));
        }
        let term: i128 = match d {
            Distance::Dot => a * b,
            Distance::Cosine => a * b,
            Distance::Euclid => -((a - b) * (a - b)),
            Distance::Manhattan => if a >= b {
                -(a - b)
            } else {
                -(b - a)
            },
        };
        proof {
            let j: int = n as int - i as int;
            assert(-(j - 1) * b2 <= acc <= (j - 1) * b2);
            assert(-b2 <= term <= b2);
            assert(-(n as int - i as int) * b2 <= acc + term && acc + term <= (n as int
                - i as int) * b2) by (nonlinear_arith)
                requires
                    j == n as int - i as int,
                    -(j - 1) * b2 <= acc <= (j - 1) * b2,
                    -b2 <= term <= b2,
            ;
            assert(-0x4000_0000_0000_0000_0000_0000_0000_0000 <= acc + term && acc + term
                <= 0x4000_0000_0000_0000_0000_0000_0000_0000) by (nonlinear_arith)
                requires
                    1 <= j <= n as int,
                    n as int <= 0xffff_ffff_ffff_ffff,
                    -(j - 1) * b2 <= acc <= (j - 1) * b2,
                    -b2 <= term <= b2,
                    b2 == 4 * (VECTOR_ELEMENT_BOUND as int) * (VECTOR_ELEMENT_BOUND as int),
            ;
        }
        acc = acc + term;
    }
    proof {
        assert(q@.subrange(0, n as int) =~= q@);
        assert(v@.subrange(0, n as int) =~= v@);
    }
    acc
}

/// In-memory dense vector storage: one fixed-dimension vector per internal
/// offset.
pub struct SimpleVectorStorage {
    pub dim: usize,
    pub distance: Distance,
    pub vectors: Vec<Vec<VectorElementType>>,
}

impl SimpleVectorStorage {
    /// Every stored vector has the storage's dimension and bounded
    /// components.
    pub open spec fn wf(&self) -> bool {
        &&& self.dim > 0
        &&& forall|i: int|
            0 <= i < self.vectors@.len() ==> (#[trigger] self.vectors@[i])@.len() == self.dim
                && bounded_vector(self.vectors@[i]@)
    }

    pub open spec fn spec_vector_of(&self, key: PointOffsetType) -> Option<Seq<VectorElementType>> {
        if key < self.vectors@.len() {
            Some(self.vectors@[key as int]@)
        } else {
            None
        }
    }

    pub open spec fn spec_count(&self) -> nat {
        self.vectors@.len()
    }

    pub fn new(dim: usize, distance: Distance) -> (r: Self)
        requires
            dim > 0,
        ensures
            r.wf(),
            r.dim == dim,
            r.distance == distance,
            r.spec_count() == 0,
    {
        SimpleVectorStorage { dim, distance, vectors: Vec::new() }
    }

    pub fn vector_dim(&self) -> (r: usize)
        ensures
            r == self.dim,
    {
        self.dim
    }

    pub fn total_vector_count(&self) -> (r: usize)
        ensures
            r == self.spec_count(),
    {
        self.vectors.len()
    }

    /// The stored vector at an offset known to be in range.
    pub fn vector_at(&self, key: PointOffsetType) -> (r: &Vec<VectorElementType>)
        requires
            key < self.spec_count(),
        ensures
            self.spec_vector_of(key) == Some(r@),
            r@ == self.vectors@[key as int]@,
    {
        &self.vectors[key as usize]
    }

    /// The stored vector at an offset, if one was ever written there.
    pub fn get_vector(&self, key: PointOffsetType) -> (r: Option<&Vec<VectorElementType>>)
        ensures
            match r {
                Some(v) => self.spec_vector_of(key) == Some(v@),
                None => self.spec_vector_of(key) is None,
            },
    {
        if (key as usize) < self.vectors.len() {
            Some(&self.vectors[key as usize])
        } else {
            None
        }
    }

    /// Stores a vector at an offset, appending or overwriting. The offset
    /// must be the next free one or an already used one; a vector of the
    /// wrong dimension is rejected and changes nothing, as is one with a
    /// component out of the fixed-point range.
    #[verifier::loop_isolation(false)]
    pub fn insert_vector(&mut self, key: PointOffsetType, vector: &Vec<VectorElementType>) -> (r:
        OperationResult<()>)
        requires
            old(self).wf(),
            key <= old(self).spec_count(),
        ensures
            final(self).wf(),
            final(self).dim == old(self).dim,
            final(self).distance == old(self).distance,
            r is Ok <==> (vector@.len() == old(self).dim && bounded_vector(vector@)),
            r is Err ==> *final(self) == *old(self) && (vector@.len() != old(self).dim ==> (
            r->Err_0 matches OperationError::WrongVector { expected_dim, received_dim } && (
            expected_dim == old(self).dim && received_dim == vector@.len()))),
            r is Ok ==> final(self).spec_vector_of(key) == Some(vector@),
            r is Ok ==> final(self).spec_count() == (if key < old(self).spec_count() {
                old(self).spec_count()
            } else {
                old(self).spec_count() + 1
            }),
            forall|k2: PointOffsetType|
                k2 != key ==> #[trigger] final(self).spec_vector_of(k2) == old(
                    self,
                ).spec_vector_of(k2),
    {
        if vector.len() != self.dim {
            return Err(
                OperationError::WrongVector {
                    expected_dim: self.dim,
                    received_dim: vector.len(),
                },
            );
        }
        let n = vector.len();
        let mut i: usize = 0;
        while i < n
            invariant
                0 <= i <= n,
                n == vector@.len(),
                forall|j: int|
                    0 <= j < i ==> -VECTOR_ELEMENT_BOUND <= (#[trigger] vector@[j])
                        <= VECTOR_ELEMENT_BOUND,
            decreases n - i,
        {
            let x = vector[i];
            if x < -VECTOR_ELEMENT_BOUND || x > VECTOR_ELEMENT_BOUND {
                return Err(
                    OperationError::ServiceError {
                        description: "vector component out of fixed-point range".to_owned(),
                    },
                );
            }
            i = i + 1;
        }
        let copy = copy_vector(vector);
        if (key as usize) < self.vectors.len() {
            self.vectors.set(key as usize, copy);
        } else {
            self.vectors.push(copy);
        }
        Ok(())
    }
}

/// Copy of a vector that is provably equal to the original.
pub fn copy_vector(v: &Vec<VectorElementType>) -> (r: Vec<VectorElementType>)
    ensures
        r@ == v@,
{
    let mut r: Vec<VectorElementType> = Vec::new();
    let n = v.len();
    let mut i: usize = 0;
    while i < n
        invariant
            0 <= i <= n,
            n == v@.len(),
            r@ =~= v@.subrange(0, i as int),
        decreases n - i,
    {
        r.push(v[i]);
        proof {
            assert(r@ =~= v@.subrange(0, i + 1));
        }
        i = i + 1;
    }
    proof {
        assert(r@ =~= v@);
    }
    r
}

/// `r` is the integer square root of `x`.
pub open spec fn is_isqrt(x: int, r: int) -> bool {
    r >= 0 && r * r <= x && x < (r + 1) * (r + 1)
}

/// Integer square root, as a specification value: the unique non-negative
/// `r` with `r * r <= x < (r + 1) * (r + 1)`.
pub open spec fn spec_isqrt(x: int) -> int {
    choose|r: int| is_isqrt(x, r)
}

/// Any two integer square roots of the same value coincide.
pub proof fn lemma_isqrt_unique(x: int, r: int)
    requires
        r >= 0,
        r * r <= x,
        x < (r + 1) * (r + 1),
    ensures
        spec_isqrt(x) == r,
{
    assert(is_isqrt(x, r));
    assert(exists|r2: int| is_isqrt(x, r2));
    let c = spec_isqrt(x);
    assert(is_isqrt(x, c));
    if c < r {
        assert((c + 1) * (c + 1) <= r * r) by (nonlinear_arith)
            requires
                0 <= c < r,
        ;
    }
    if r < c {
        assert((r + 1) * (r + 1) <= c * c) by (nonlinear_arith)
            requires
                0 <= r < c,
        ;
    }
}

/// Integer square root: the largest `r` with `r * r <= x`.
pub fn isqrt_u128(x: u128) -> (r: u128)
    ensures
        (r as int) * (r as int) <= x,
        x < ((r as int) + 1) * ((r as int) + 1),
        r == spec_isqrt(x as int),
        r < 0x1_0000_0000_0000_0000,
{
    let mut lo: u128 = 0;
    let mut hi: u128 = 0x1_0000_0000_0000_0000;
    proof {
        assert((hi as int) * (hi as int) > x) by (nonlinear_arith)
            requires
                hi == 0x1_0000_0000_0000_0000u128,
                x <= 0xffff_ffff_ffff_ffff_ffff_ffff_ffff_ffffu128,
        ;
    }
    // Invariant: lo * lo <= x < hi * hi.
    while lo + 1 < hi
        invariant
            0 <= lo < hi,
            (lo as int) * (lo as int) <= x,
            x < (hi as int) * (hi as int),
            hi <= 0x1_0000_0000_0000_0000,
        decreases hi - lo,
    {
        let mid: u128 = lo + (hi - lo) / 2;
        proof {
            assert((mid as int) * (mid as int)
                <= 0xffff_ffff_ffff_ffff_ffff_ffff_ffff_ffffu128) by (nonlinear_arith)
                requires
                    0 <= mid,
                    mid < 0x1_0000_0000_0000_0000u128,
            ;
        }
        let sq: u128 = mid * mid;
        if sq <= x {
            lo = mid;
        } else {
            hi = mid;
        }
    }
    proof {
        lemma_isqrt_unique(x as int, lo as int);
    }
    lo
}

/// Cosine preprocessing of one component: `e * scale / norm`, rounded
/// toward zero.
pub open spec fn spec_normalized_component(e: int, norm: int) -> int {
    if e >= 0 {
        (e * FIXED_POINT_ONE as int) / norm
    } else {
        -((-e * FIXED_POINT_ONE as int) / norm)
    }
}

/// The norm used by cosine preprocessing: the integer square root of the
/// sum of squared components.
pub open spec fn spec_norm(v: Seq<VectorElementType>) -> int {
    spec_isqrt(spec_dot(v, v))
}

/// What cosine preprocessing turns a vector into: the vector scaled to an
/// (integer) unit norm, or the vector itself when its norm is zero.
pub open spec fn spec_normalize(v: Seq<VectorElementType>) -> Seq<int> {
    if spec_norm(v) <= 0 {
        Seq::new(v.len(), |k: int| v[k] as int)
    } else {
        Seq::new(v.len(), |k: int| spec_normalized_component(v[k] as int, spec_norm(v)))
    }
}


/// The score of bounded vectors is bounded by the length times the largest
/// term.
pub proof fn lemma_score_bound(d: Distance, q: Seq<VectorElementType>, v: Seq<VectorElementType>)
    requires
        bounded_vector(q),
        bounded_vector(v),
        q.len() == v.len(),
    ensures
        spec_score(d, q, v) >= -((q.len() as int) * (4 * (VECTOR_ELEMENT_BOUND as int) * (
        VECTOR_ELEMENT_BOUND as int))),
        spec_score(d, q, v) <= (q.len() as int) * (4 * (VECTOR_ELEMENT_BOUND as int) * (
        VECTOR_ELEMENT_BOUND as int)),
    decreases q.len(),
{
    let b2 = 4 * (VECTOR_ELEMENT_BOUND as int) * (VECTOR_ELEMENT_BOUND as int);
    if q.len() == 0 {
    } else {
        let qt = q.subrange(1, q.len() as int);
        let vt = v.subrange(1, v.len() as int);
        assert(bounded_vector(qt) && bounded_vector(vt)) by {
            assert(forall|i: int| 0 <= i < qt.len() ==> (#[trigger] qt[i]) == q[i + 1]);
            assert(forall|i: int| 0 <= i < vt.len() ==> (#[trigger] vt[i]) == v[i + 1]);
        }
        lemma_score_bound(d, qt, vt);
        let a = q[0] as int;
        let b = v[0] as int;
        assert(-b2 <= a * b <= b2 && -b2 <= (a - b) * (a - b) <= b2) by (nonlinear_arith)
            requires
                -(VECTOR_ELEMENT_BOUND as int) <= a <= VECTOR_ELEMENT_BOUND as int,
                -(VECTOR_ELEMENT_BOUND as int) <= b <= VECTOR_ELEMENT_BOUND as int,
                b2 == 4 * (VECTOR_ELEMENT_BOUND as int) * (VECTOR_ELEMENT_BOUND as int),
        ;
        assert((q.len() as int) * b2 == ((qt.len() as int)) * b2 + b2) by (nonlinear_arith)
            requires
                q.len() as int == qt.len() as int + 1,
        ;
        assert(spec_score(d, qt, vt) >= -((qt.len() as int) * b2));
        assert(spec_score(d, qt, vt) <= (qt.len() as int) * b2);
    }
}

/// The score of bounded vectors fits comfortably in a 128-bit integer.
pub proof fn lemma_score_fits(d: Distance, q: Seq<VectorElementType>, v: Seq<VectorElementType>)
    requires
        bounded_vector(q),
        bounded_vector(v),
        q.len() == v.len(),
        q.len() <= 0xffff_ffff_ffff_ffff,
    ensures
        -0x4000_0000_0000_0000_0000_0000_0000_0000 <= spec_score(d, q, v),
        spec_score(d, q, v) <= 0x4000_0000_0000_0000_0000_0000_0000_0000,
{
    let b2 = 4 * (VECTOR_ELEMENT_BOUND as int) * (VECTOR_ELEMENT_BOUND as int);
    lemma_score_bound(d, q, v);
    assert((q.len() as int) * b2 <= 0x4000_0000_0000_0000_0000_0000_0000_0000)
        by (nonlinear_arith)
        requires
            0 <= q.len() as int <= 0xffff_ffff_ffff_ffff,
            b2 == 4 * (VECTOR_ELEMENT_BOUND as int) * (VECTOR_ELEMENT_BOUND as int),
    ;
    assert(spec_score(d, q, v) >= -((q.len() as int) * b2));
    assert(-((q.len() as int) * b2) >= -0x4000_0000_0000_0000_0000_0000_0000_0000);
}

} // verus!
