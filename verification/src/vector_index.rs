//! Vector indexes: exact scoring over filtered candidates, with a verified
//! top-k selection. The plain index always scans; the graph-index variant
//! keeps the planner policy (pre-filter below the threshold, scan above)
//! and both strategies return the same top-k.

use vstd::prelude::*;
use crate::types::{
    PointIdType, PointOffsetType, ScoredPointOffset, Distance, HnswConfig, SearchParams,
};
use crate::errors::{OperationError, OperationResult};
use crate::payload::Filter;
use crate::payload_index::{
    StructPayloadIndex, spec_matching_links, matching_links, CardinalityEstimation,
};
use crate::payload_storage::SimplePayloadStorage;
use crate::id_tracker::SimpleIdTracker;
use crate::vector_storage::{SimpleVectorStorage, bounded_vector, spec_score, score_vectors};

verus! {

/// Scores are non-increasing.
pub open spec fn sorted_desc(s: Seq<ScoredPointOffset>) -> bool {
    forall|i: int, j: int| 0 <= i < j < s.len() ==> s[i].score >= s[j].score
}

/// `r` is a top-`top` selection of `c`: `sel` names which candidates were
/// picked; they are pairwise distinct, `r` is sorted by descending score,
/// and every candidate left out scores no more than the last one returned.
pub open spec fn spec_top_selection(
    c: Seq<ScoredPointOffset>,
    top: int,
    r: Seq<ScoredPointOffset>,
    sel: Seq<int>,
) -> bool {
    &&& r.len() == sel.len()
    &&& r.len() == (if top <= c.len() {
        top
    } else {
        c.len() as int
    })
    &&& forall|k: int| 0 <= k < sel.len() ==> 0 <= #[trigger] sel[k] < c.len()
    &&& forall|k: int| 0 <= k < sel.len() ==> r[k] == c[#[trigger] sel[k]]
    &&& forall|a: int, b: int| 0 <= a < b < sel.len() ==> sel[a] != sel[b]
    &&& sorted_desc(r)
    &&& forall|j: int|
        0 <= j < c.len() && !sel.contains(j) && r.len() > 0 ==> (#[trigger] c[j]).score <= r[
            r.len() - 1
        ].score
}

/// One direction of score agreement between two top selections.
proof fn lemma_top_scores_le(
    c: Seq<ScoredPointOffset>,
    top: int,
    r1: Seq<ScoredPointOffset>,
    sel1: Seq<int>,
    r2: Seq<ScoredPointOffset>,
    sel2: Seq<int>,
)
    requires
        spec_top_selection(c, top, r1, sel1),
        spec_top_selection(c, top, r2, sel2),
    ensures
        forall|k: int| 0 <= k < r1.len() ==> (#[trigger] r1[k]).score <= r2[k].score,
{
    let m = r1.len() as int;
    assert forall|k: int| 0 <= k < m implies (#[trigger] r1[k]).score <= r2[k].score by {
        if r1[k].score > r2[k].score {
            // The first selection's k + 1 best rows all score above the
            // second's k-th row, so each must sit among the second
            // selection's first k rows: one row short of them.
            let t = sel1.subrange(0, k + 1);
            let u = sel2.subrange(0, k);
            assert(t.no_duplicates());
            assert(u.no_duplicates());
            t.unique_seq_to_set();
            u.unique_seq_to_set();
            vstd::seq_lib::seq_to_set_is_finite(t);
            vstd::seq_lib::seq_to_set_is_finite(u);
            assert forall|x: int| t.to_set().contains(x) implies u.to_set().contains(x) by {
                let a = choose|a: int| 0 <= a < t.len() && t[a] == x;
                assert(sel1[a] == x);
                assert(r1[a] == c[sel1[a]]);
                assert(r1[a].score >= r1[k].score);
                assert(sel2.contains(x)) by {
                    if !sel2.contains(x) {
                        assert(c[x].score <= r2[m - 1].score);
                        assert(r2[m - 1].score <= r2[k].score);
                    }
                }
                let j = choose|j: int| 0 <= j < sel2.len() && sel2[j] == x;
                assert(r2[j] == c[sel2[j]]);
                assert(j < k) by {
                    if j > k {
                        assert(r2[k].score >= r2[j].score);
                    }
                }
                assert(u[j] == x);
            }
            assert(t.to_set().subset_of(u.to_set()));
            vstd::set_lib::lemma_len_subset(t.to_set(), u.to_set());
        }
    }
}

/// Two top selections over the same candidates score identically row by
/// row: a tie may change which point a row returns, never with which
/// score. A batch search row therefore agrees score-for-score with the
/// single search it stands for.
pub proof fn lemma_search_scores_agree(
    c: Seq<ScoredPointOffset>,
    top: int,
    r1: Seq<ScoredPointOffset>,
    r2: Seq<ScoredPointOffset>,
)
    requires
        exists|sel: Seq<int>| spec_top_selection(c, top, r1, sel),
        exists|sel: Seq<int>| spec_top_selection(c, top, r2, sel),
    ensures
        r1.len() == r2.len(),
        forall|k: int| 0 <= k < r1.len() ==> (#[trigger] r1[k]).score == r2[k].score,
{
    let sel1 = choose|sel: Seq<int>| spec_top_selection(c, top, r1, sel);
    let sel2 = choose|sel: Seq<int>| spec_top_selection(c, top, r2, sel);
    lemma_top_scores_le(c, top, r1, sel1, r2, sel2);
    lemma_top_scores_le(c, top, r2, sel2, r1, sel1);
}

/// Selects the `top` best-scored entries, highest first.
#[verifier::loop_isolation(false)]
pub fn top_k(cands: &Vec<ScoredPointOffset>, top: usize) -> (r: Vec<ScoredPointOffset>)
    ensures
        exists|sel: Seq<int>| spec_top_selection(cands@, top as int, r@, sel),
{
    let n = cands.len();
    let limit = if top < n {
        top
    } else {
        n
    };
    let mut taken: Vec<bool> = Vec::new();
    let mut t: usize = 0;
    while t < n
        invariant
            0 <= t <= n,
            taken@.len() == t,
            forall|j: int| 0 <= j < t ==> !(#[trigger] taken@[j]),
        decreases n - t,
    {
        taken.push(false);
        t = t + 1;
    }
    let mut r: Vec<ScoredPointOffset> = Vec::new();
    let ghost mut sel: Seq<int> = Seq::empty();
    while r.len() < limit
        invariant
            taken@.len() == n,
            r@.len() == sel.len() <= limit,
            forall|k: int| 0 <= k < sel.len() ==> 0 <= #[trigger] sel[k] < n,
            forall|k: int| 0 <= k < sel.len() ==> r@[k] == cands@[#[trigger] sel[k]],
            forall|a: int, b: int| 0 <= a < b < sel.len() ==> sel[a] != sel[b],
            forall|j: int| 0 <= j < n ==> (#[trigger] taken@[j] <==> sel.contains(j)),
            sorted_desc(r@),
            forall|j: int|
                0 <= j < n && !taken@[j] && r@.len() > 0 ==> (#[trigger] cands@[j]).score <= r@[
                    r@.len() - 1
                ].score,
        decreases limit - r.len(),
    {
        // Find the best untaken candidate.
        let mut best: usize = 0;
        let mut found = false;
        let mut j: usize = 0;
        while j < n
            invariant
                0 <= j <= n,
                found ==> best < n && !taken@[best as int],
                found ==> forall|j2: int|
                    0 <= j2 < j && !taken@[j2] ==> (#[trigger] cands@[j2]).score
                        <= cands@[best as int].score,
                !found ==> forall|j2: int| 0 <= j2 < j ==> #[trigger] taken@[j2],
            decreases n - j,
        {
            if !taken[j] {
                if !found || cands[j].score > cands[best].score {
                    best = j;
                    found = true;
                }
            }
            j = j + 1;
        }
        proof {
            if !found {
                // Everything is taken, yet fewer than `n` entries were
                // selected: impossible, because selections are distinct.
                assert(forall|j2: int| 0 <= j2 < n ==> #[trigger] taken@[j2]);
                assert(sel.no_duplicates());
                sel.unique_seq_to_set();
                vstd::seq_lib::seq_to_set_is_finite(sel);
                let range = vstd::set_lib::set_int_range(0, n as int);
                assert forall|x: int| range.contains(x) implies sel.to_set().contains(x) by {
                    assert(taken@[x]);
                    assert(sel.contains(x));
                }
                assert(range.subset_of(sel.to_set()));
                vstd::set_lib::lemma_int_range(0, n as int);
                vstd::set_lib::lemma_len_subset(range, sel.to_set());
                assert(false);
            }
        }
        let chosen = cands[best];
        let ghost sel0 = sel;
        proof {
            sel = sel0.push(best as int);
            assert(sel.drop_last() =~= sel0);
            assert forall|j2: int|
                0 <= j2 < n && !(taken@.update(best as int, true)[j2]) && r@.push(chosen).len()
                    > 0 implies (#[trigger] cands@[j2]).score <= r@.push(chosen)[r@.push(
                chosen,
            ).len() - 1].score by {
                assert(j2 != best as int);
                assert(!taken@[j2]);
            }
            assert forall|j2: int| 0 <= j2 < n implies (#[trigger] taken@.update(
                best as int,
                true,
            )[j2] <==> sel.contains(j2)) by {
                if j2 == best as int {
                    assert(sel[sel.len() - 1] == j2);
                } else {
                    assert(taken@[j2] == sel0.contains(j2));
                    if sel.contains(j2) {
                        let w = choose|w: int| 0 <= w < sel.len() && sel[w] == j2;
                        assert(w < sel.len() - 1);
                        assert(sel0[w] == j2);
                    }
                    if sel0.contains(j2) {
                        let w = choose|w: int| 0 <= w < sel0.len() && sel0[w] == j2;
                        assert(sel[w] == j2);
                    }
                }
            }
            assert(sorted_desc(r@.push(chosen))) by {
                assert forall|a: int, b: int|
                    0 <= a < b < r@.push(chosen).len() implies r@.push(chosen)[a].score >= r@.push(
                    chosen,
                )[b].score by {
                    if b == r@.len() as int {
                        if a < r@.len() {
                            assert(r@.push(chosen)[a] == r@[a]);
                        }
                    } else {
                        assert(r@.push(chosen)[a] == r@[a] && r@.push(chosen)[b] == r@[b]);
                    }
                }
            }
        }
        taken.set(best, true);
        r.push(chosen);
    }
    proof {
        assert(spec_top_selection(cands@, top as int, r@, sel));
    }
    r
}

/// The interface every vector index variant offers: filtered search over
/// the segment's stores, and an index rebuild honouring cancellation.
pub trait VectorIndex {
    fn search_index(
        &self,
        storage: &SimpleVectorStorage,
        tracker: &SimpleIdTracker,
        ps: &SimplePayloadStorage,
        payload_index: &StructPayloadIndex,
        query: &Vec<i64>,
        filter: Option<&Filter>,
        top: usize,
        params: Option<&SearchParams>,
    ) -> Vec<ScoredPointOffset>
        requires
            storage.wf(),
            tracker.wf(),
            ps.wf(),
            payload_index.wf(),
            query@.len() == storage.dim,
            bounded_vector(query@),
            forall|k: int|
                0 <= k < tracker.spec_links().len() ==> (#[trigger] tracker.spec_links()[k]).1
                    < ps.spec_len() && tracker.spec_links()[k].1 < storage.spec_count(),
    ;

    fn rebuild(&mut self, stopped: bool) -> OperationResult<()>;
}

/// A graph vector index, modelled at the planner level: it answers exactly,
/// choosing between candidate pre-filtering and a full scan by the
/// cardinality estimate against its threshold.
pub struct HnswIndexModel {
    pub config: HnswConfig,
    pub built: bool,
}

/// Which vector index a segment runs.
pub enum VectorIndexEnum {
    Plain(PlainIndex),
    Hnsw(HnswIndexModel),
}

/// Brute-force vector index: scores every candidate.
pub struct PlainIndex {
}

impl PlainIndex {
    pub fn new() -> (r: Self) {
        PlainIndex {  }
    }
}

/// The candidate links a search considers: every live point, or the points
/// matching the filter.
pub open spec fn spec_search_candidates(
    ps: SimplePayloadStorage,
    tracker: SimpleIdTracker,
    filter: Option<Filter>,
) -> Seq<(PointIdType, PointOffsetType)> {
    match filter {
        None => tracker.spec_links(),
        Some(f) => spec_matching_links(ps, tracker, f),
    }
}

/// The scored entry a candidate link produces.
pub open spec fn spec_scored_of(
    storage: SimpleVectorStorage,
    query: Seq<i64>,
    link: (PointIdType, PointOffsetType),
) -> ScoredPointOffset {
    ScoredPointOffset {
        idx: link.1,
        score: spec_score(storage.distance, query, storage.vectors@[link.1 as int]@) as i128,
    }
}

/// The filter argument of a search, as an owned option.
pub open spec fn spec_opt_filter(filter: Option<&Filter>) -> Option<Filter> {
    match filter {
        Some(f) => Some(*f),
        None => None,
    }
}

/// The scored entries of a candidate list, in order.
pub open spec fn spec_scored_candidates(
    storage: SimpleVectorStorage,
    query: Seq<i64>,
    cands: Seq<(PointIdType, PointOffsetType)>,
) -> Seq<ScoredPointOffset> {
    Seq::new(cands.len(), |k: int| spec_scored_of(storage, query, cands[k]))
}

/// Scores all candidate links.
#[verifier::loop_isolation(false)]
fn score_links(
    storage: &SimpleVectorStorage,
    query: &Vec<i64>,
    links: &Vec<(PointIdType, PointOffsetType)>,
) -> (r: Vec<ScoredPointOffset>)
    requires
        storage.wf(),
        query@.len() == storage.dim,
        bounded_vector(query@),
        forall|k: int|
            0 <= k < links@.len() ==> (#[trigger] links@[k]).1 < storage.spec_count(),
    ensures
        r@.len() == links@.len(),
        forall|k: int|
            0 <= k < links@.len() ==> #[trigger] r@[k] == spec_scored_of(
                *storage,
                query@,
                links@[k],
            ),
{
    let n = links.len();
    let mut r: Vec<ScoredPointOffset> = Vec::new();
    let mut k: usize = 0;
    while k < n
        invariant
            0 <= k <= n,
            r@.len() == k,
            forall|k2: int|
                0 <= k2 < k ==> #[trigger] r@[k2] == spec_scored_of(
                    *storage,
                    query@,
                    links@[k2],
                ),
        decreases n - k,
    {
        let link = links[k];
        let vector = storage.vector_at(link.1);
        let score = score_vectors(storage.distance, query, vector);
        r.push(ScoredPointOffset { idx: link.1, score });
        k = k + 1;
    }
    r
}

/// Exact filtered search over one vector storage: scores the candidates
/// and keeps the best `top`, highest score first.
#[verifier::loop_isolation(false)]
pub fn search_internal(
    storage: &SimpleVectorStorage,
    tracker: &SimpleIdTracker,
    ps: &SimplePayloadStorage,
    query: &Vec<i64>,
    filter: Option<&Filter>,
    top: usize,
) -> (r: Vec<ScoredPointOffset>)
    requires
        storage.wf(),
        tracker.wf(),
        ps.wf(),
        query@.len() == storage.dim,
        bounded_vector(query@),
        forall|k: int|
            0 <= k < tracker.spec_links().len() ==> (#[trigger] tracker.spec_links()[k]).1
                < ps.spec_len() && tracker.spec_links()[k].1 < storage.spec_count(),
    ensures
        exists|sel: Seq<int>|
            #[trigger] spec_top_selection(
                spec_scored_candidates(
                    *storage,
                    query@,
                    spec_search_candidates(*ps, *tracker, spec_opt_filter(filter)),
                ),
                top as int,
                r@,
                sel,
            ),
{
    let links: Vec<(PointIdType, PointOffsetType)> = match filter {
        None => tracker.iter_from(None),
        Some(f) => matching_links(ps, tracker, f),
    };
    proof {
        match filter {
            Some(f) => {
                crate::payload_index::lemma_filter_subset(
                    tracker.spec_links(),
                    (|l: (PointIdType, PointOffsetType)|
                        crate::payload_index::spec_link_matches(*ps, *f, l)),
                );
            },
            None => {},
        }
        assert forall|k: int| 0 <= k < links@.len() implies (#[trigger] links@[k]).1
            < storage.spec_count() by {
            if filter is Some {
                assert(tracker.spec_links().contains(links@[k]));
                let w = choose|w: int|
                    0 <= w < tracker.spec_links().len() && tracker.spec_links()[w] == links@[k];
                assert((tracker.spec_links()[w]).1 < storage.spec_count());
            }
        }
    }
    let scored = score_links(storage, query, &links);
    proof {
        let cands = spec_search_candidates(
            *ps,
            *tracker,
            match filter {
                Some(f) => Some(*f),
                None => None,
            },
        );
        assert(links@ == cands);
        assert(scored@ =~= spec_scored_candidates(*storage, query@, cands));
    }
    let result = top_k(&scored, top);
    proof {
        let cands = spec_search_candidates(
            *ps,
            *tracker,
            match filter {
                Some(f) => Some(*f),
                None => None,
            },
        );
        let sel = choose|sel: Seq<int>|
            spec_top_selection(scored@, top as int, result@, sel);
        assert(spec_top_selection(
            spec_scored_candidates(*storage, query@, cands),
            top as int,
            result@,
            sel,
        ));
    }
    result
}

impl HnswIndexModel {
    /// The cardinality threshold below which the graph index pre-filters
    /// candidates instead of walking the graph.
    pub fn full_scan_threshold(&self) -> (r: usize)
        ensures
            r == self.config.full_scan_threshold,
    {
        self.config.full_scan_threshold
    }
}

impl VectorIndexEnum {
    pub fn new_plain() -> (r: Self)
        ensures
            r is Plain,
    {
        VectorIndexEnum::Plain(PlainIndex::new())
    }

    pub fn new_hnsw(config: HnswConfig) -> (r: Self)
        ensures
            r is Hnsw,
            r->Hnsw_0.config == config,
            !r->Hnsw_0.built,
    {
        VectorIndexEnum::Hnsw(HnswIndexModel { config, built: false })
    }

    pub open spec fn spec_is_indexed(&self) -> bool {
        self is Hnsw && self->Hnsw_0.built
    }

    /// Searches one query. Both index variants answer exactly; the graph
    /// variant only chooses its strategy by the cardinality estimate, as
    /// the filtered-search policy asks.
    pub fn search_scored(
        &self,
        storage: &SimpleVectorStorage,
        tracker: &SimpleIdTracker,
        ps: &SimplePayloadStorage,
        payload_index: &StructPayloadIndex,
        query: &Vec<i64>,
        filter: Option<&Filter>,
        top: usize,
        params: Option<&SearchParams>,
    ) -> (r: Vec<ScoredPointOffset>)
        requires
            storage.wf(),
            tracker.wf(),
            ps.wf(),
            payload_index.wf(),
            query@.len() == storage.dim,
            bounded_vector(query@),
            forall|k: int|
                0 <= k < tracker.spec_links().len() ==> (#[trigger] tracker.spec_links()[k]).1
                    < ps.spec_len() && tracker.spec_links()[k].1 < storage.spec_count(),
        ensures
            exists|sel: Seq<int>|
                #[trigger] spec_top_selection(
                    spec_scored_candidates(
                        *storage,
                        query@,
                        spec_search_candidates(*ps, *tracker, spec_opt_filter(filter)),
                    ),
                    top as int,
                    r@,
                    sel,
                ),
    {
        match self {
            VectorIndexEnum::Plain(_) => search_internal(storage, tracker, ps, query, filter, top),
            VectorIndexEnum::Hnsw(model) => {
                match filter {
                    Some(f) => {
                        let total = tracker.points_count();
                        let estimation = payload_index.estimate_cardinality(
                            ps,
                            tracker,
                            f,
                            total,
                        );
                        if estimation.max <= model.config.full_scan_threshold {
                            // Small candidate set: pre-filter, then score.
                            search_internal(storage, tracker, ps, query, filter, top)
                        } else {
                            // Large candidate set: scan with the filter
                            // applied at visit time. The result is the same
                            // exact top-k.
                            search_internal(storage, tracker, ps, query, filter, top)
                        }
                    },
                    None => search_internal(storage, tracker, ps, query, filter, top),
                }
            },
        }
    }

    /// Rebuilds the index. Building honours cooperative cancellation: when
    /// the stop flag is raised the build is abandoned with `Cancelled` and
    /// the index is unchanged.
    pub fn build_index(&mut self, stopped: bool) -> (r: OperationResult<()>)
        ensures
            (!stopped && *old(self) is Hnsw) ==> (*final(self) is Hnsw
                && (*final(self))->Hnsw_0.built
                && (*final(self))->Hnsw_0.config == (*old(self))->Hnsw_0.config),
            (!stopped && *old(self) is Plain) ==> *final(self) == *old(self),
            !stopped <==> r is Ok,
            stopped ==> *final(self) == *old(self) && (r->Err_0 is Cancelled),
    {
        if stopped {
            return Err(
                OperationError::Cancelled {
                    description: "index build interrupted by the stop flag".to_owned(),
                },
            );
        }
        match self {
            VectorIndexEnum::Plain(_) => Ok(()),
            VectorIndexEnum::Hnsw(model) => {
                model.built = true;
                Ok(())
            },
        }
    }
}


impl VectorIndex for VectorIndexEnum {
    /// Searches through whichever index variant this is; the exact
    /// contract lives on `search_scored`.
    fn search_index(
        &self,
        storage: &SimpleVectorStorage,
        tracker: &SimpleIdTracker,
        ps: &SimplePayloadStorage,
        payload_index: &StructPayloadIndex,
        query: &Vec<i64>,
        filter: Option<&Filter>,
        top: usize,
        params: Option<&SearchParams>,
    ) -> Vec<ScoredPointOffset> {
        self.search_scored(storage, tracker, ps, payload_index, query, filter, top, params)
    }

    /// Rebuilds through whichever index variant this is; the exact
    /// contract lives on `build_index`.
    fn rebuild(&mut self, stopped: bool) -> OperationResult<()> {
        self.build_index(stopped)
    }
}

} // verus!
