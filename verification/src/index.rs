//! The similarity index: vectors of one dimension, addressed by row id, and the
//! exact search for the rows nearest to a query.

use vstd::prelude::*;
use crate::error::EngineError;
use crate::ranking::{is_top_k, lemma_top_k_unique, top_k};

verus! {

/// What an index holds: the dimension of its vectors and the vectors
/// themselves, each at the position that is its row id.
pub struct IndexModel {
    pub dimension: nat,
    pub rows: Seq<Seq<u32>>,
}

impl IndexModel {
    /// Every row has the dimension of the index.
    pub open spec fn wf(self) -> bool {
        forall|r: int| 0 <= r < self.rows.len() ==> (#[trigger] self.rows[r]).len() == self.dimension
    }
}

/// The contents of stored vectors, position by position.
pub open spec fn row_views(vectors: Seq<Vec<u32>>) -> Seq<Seq<u32>> {
    Seq::new(vectors.len(), |r: int| vectors[r]@)
}

/// The outcome of building an index from `vectors`: row ids by position, the
/// dimension that of the vector at position 0.
pub open spec fn built(vectors: Seq<Seq<u32>>) -> Result<IndexModel, EngineError> {
    if vectors.len() == 0 {
        Err(EngineError::EmptyInput)
    } else if exists|i: int| 0 <= i < vectors.len() && (#[trigger] vectors[i]).len() != vectors[0].len() {
        Err(EngineError::DimensionMismatch)
    } else {
        Ok(IndexModel { dimension: vectors[0].len(), rows: vectors })
    }
}

/// An index of embedding vectors of one dimension, searched exactly.
pub struct SimilarityIndex {
    dimension: usize,
    rows: Vec<Vec<u32>>,
}

impl View for SimilarityIndex {
    type V = IndexModel;

    open spec fn view(&self) -> IndexModel {
        IndexModel {
            dimension: self.spec_dimension() as nat,
            rows: row_views(self.vectors()),
        }
    }
}

impl SimilarityIndex {
    #[verifier::type_invariant]
    spec fn uniform(&self) -> bool {
        forall|r: int| 0 <= r < self.rows@.len() ==> (#[trigger] self.rows@[r])@.len() == self.dimension
    }

    /// The dimension that the index was made with.
    pub closed spec fn spec_dimension(&self) -> usize {
        self.dimension
    }

    /// The stored vectors, by row id.
    pub closed spec fn vectors(&self) -> Seq<Vec<u32>> {
        self.rows@
    }

    /// An index of the given dimension that holds no row.
    pub fn empty(dimension: usize) -> (index: SimilarityIndex)
        ensures
            index@ == (IndexModel { dimension: dimension as nat, rows: Seq::empty() }),
            index@.wf(),
    {
        let index = SimilarityIndex { dimension, rows: Vec::new() };
        assert(index@.rows =~= Seq::empty());
        index
    }

    /// Builds an index over `vectors`, which become its rows in the order given.
    /// Fails with `EmptyInput` where there is no vector and with
    /// `DimensionMismatch` where some vector is not as long as the one at
    /// position 0.
    pub fn build(vectors: Vec<Vec<u32>>) -> (result: Result<SimilarityIndex, EngineError>)
        ensures
            match result {
                Ok(index) => built(row_views(vectors@)) == Ok::<IndexModel, EngineError>(index@)
                    && index.vectors() == vectors@ && index@.wf(),
                Err(e) => built(row_views(vectors@)) == Err::<IndexModel, EngineError>(e),
            },
    {
        if vectors.len() == 0 {
            return Err(EngineError::EmptyInput);
        }
        let dimension: usize = vectors[0].len();
        let mut i: usize = 1;
        while i < vectors.len()
            invariant
                1 <= i <= vectors.len(),
                dimension == vectors[0].len(),
                forall|j: int| 0 <= j < i ==> (#[trigger] vectors@[j])@.len() == dimension,
            decreases vectors.len() - i,
        {
            if vectors[i].len() != dimension {
                proof {
                    let v = row_views(vectors@);
                    assert(v[i as int].len() != v[0].len());
                }
                return Err(EngineError::DimensionMismatch);
            }
            i = i + 1;
        }
        Ok(SimilarityIndex { dimension, rows: vectors })
    }

    /// An index over `rows`, which all have the given dimension.
    pub(crate) fn from_rows(dimension: usize, rows: Vec<Vec<u32>>) -> (index: SimilarityIndex)
        requires
            forall|r: int| 0 <= r < rows@.len() ==> (#[trigger] rows@[r])@.len() == dimension,
        ensures
            index@ == (IndexModel { dimension: dimension as nat, rows: row_views(rows@) }),
            index.vectors() == rows@,
    {
        SimilarityIndex { dimension, rows }
    }

    /// The dimension of the vectors of the index.
    pub fn dimension(&self) -> (d: usize)
        ensures
            d == self@.dimension,
    {
        self.dimension
    }

    /// The number of rows.
    pub fn row_count(&self) -> (n: usize)
        ensures
            n == self@.rows.len(),
            self@.wf(),
    {
        proof {
            use_type_invariant(self);
        }
        self.rows.len()
    }

    /// The vector at row `row`, or `None` where the index has no such row.
    pub fn row(&self, row: usize) -> (vector: Option<&Vec<u32>>)
        ensures
            row < self@.rows.len() ==> vector == Some(&self.vectors()[row as int])
                && self.vectors()[row as int]@.len() == self@.dimension,
            row >= self@.rows.len() ==> vector is None,
    {
        proof {
            use_type_invariant(self);
        }
        if row < self.rows.len() {
            Some(&self.rows[row])
        } else {
            None
        }
    }

    /// `scores` holds, row by row, a score that `metric` gave for that row and
    /// `query`.
    pub open spec fn scored_by<F: Fn(&Vec<u32>, &Vec<u32>) -> u32>(
        &self,
        metric: F,
        query: &Vec<u32>,
        scores: Seq<u32>,
    ) -> bool {
        &&& scores.len() == self.vectors().len()
        &&& forall|r: int|
            0 <= r < scores.len() ==> call_ensures(metric, (&self.vectors()[r], query), #[trigger] scores[r])
    }

    /// `result` is an outcome of searching for the `k` rows nearest to `query`
    /// under `metric`: the ranking of the rows by the scores that `metric`
    /// gave, cut off after `k` entries, where `query` has the dimension of the
    /// index, and `DimensionMismatch` where it has not.
    pub open spec fn is_search_result<F: Fn(&Vec<u32>, &Vec<u32>) -> u32>(
        &self,
        metric: F,
        query: &Vec<u32>,
        k: nat,
        result: Result<Vec<(usize, u32)>, EngineError>,
    ) -> bool {
        match result {
            Ok(hits) => query@.len() == self@.dimension && exists|scores: Seq<u32>|
                self.scored_by(metric, query, scores) && #[trigger] is_top_k(scores, k, hits@),
            Err(e) => query@.len() != self@.dimension && e == EngineError::DimensionMismatch,
        }
    }

    /// Scores every row against `query` with `metric` and returns the best `k`
    /// rows, or all rows where there are fewer: each with its score, best
    /// score first, rows of equal score by ascending row id. Fails with
    /// `DimensionMismatch` where `query` has not the dimension of the index.
    pub fn search<F: Fn(&Vec<u32>, &Vec<u32>) -> u32>(
        &self,
        query: &Vec<u32>,
        k: usize,
        metric: F,
    ) -> (result: Result<Vec<(usize, u32)>, EngineError>)
        requires
            query@.len() == self@.dimension ==> forall|r: int|
                0 <= r < self.vectors().len() ==> call_requires(
                    metric,
                    (&#[trigger] self.vectors()[r], query),
                ),
        ensures
            self.is_search_result(metric, query, k as nat, result),
    {
        if query.len() != self.dimension {
            return Err(EngineError::DimensionMismatch);
        }
        let mut scores: Vec<u32> = Vec::new();
        let mut r: usize = 0;
        while r < self.rows.len()
            invariant
                r <= self.rows.len(),
                scores.len() == r,
                forall|j: int|
                    0 <= j < self.vectors().len() ==> call_requires(
                        metric,
                        (&#[trigger] self.vectors()[j], query),
                    ),
                forall|j: int|
                    0 <= j < r ==> call_ensures(metric, (&self.vectors()[j], query), #[trigger] scores[j]),
            decreases self.rows.len() - r,
        {
            let score: u32 = metric(&self.rows[r], query);
            scores.push(score);
            r = r + 1;
        }
        let result: Result<Vec<(usize, u32)>, EngineError> = Ok(top_k(&scores, k));
        // the scores that the hits are the ranking of
        assert(self.scored_by(metric, query, scores@) && is_top_k(
            scores@,
            k as nat,
            result->Ok_0@,
        ));
        result
    }
}

/// A search returns as many rows as were asked for, or all rows where the index
/// has fewer; on an index without rows it returns none.
pub proof fn lemma_search_clamps<F: Fn(&Vec<u32>, &Vec<u32>) -> u32>(
    index: &SimilarityIndex,
    metric: F,
    query: &Vec<u32>,
    k: nat,
    hits: Vec<(usize, u32)>,
)
    requires
        index.is_search_result(metric, query, k, Ok(hits)),
    ensures
        hits@.len() == if k <= index@.rows.len() {
            k
        } else {
            index@.rows.len()
        },
{
}

/// `metric` gives one score only for each row of `index` and `query`.
pub open spec fn single_valued<F: Fn(&Vec<u32>, &Vec<u32>) -> u32>(
    index: &SimilarityIndex,
    metric: F,
    query: &Vec<u32>,
) -> bool {
    forall|r: int, a: u32, b: u32|
        #![trigger call_ensures(metric, (&index.vectors()[r], query), a), call_ensures(metric, (&index.vectors()[r], query), b)]
        0 <= r < index.vectors().len() && call_ensures(metric, (&index.vectors()[r], query), a)
            && call_ensures(metric, (&index.vectors()[r], query), b) ==> a == b
}

/// Searching twice gives the same: under a metric that gives one score only
/// for each row, two outcomes of searching one index for the same query and
/// the same number of rows hold the same rows with the same scores in the same
/// order, or are the same failure.
pub proof fn lemma_search_repeats<F: Fn(&Vec<u32>, &Vec<u32>) -> u32>(
    index: &SimilarityIndex,
    metric: F,
    query: &Vec<u32>,
    k: nat,
    one: Result<Vec<(usize, u32)>, EngineError>,
    other: Result<Vec<(usize, u32)>, EngineError>,
)
    requires
        single_valued(index, metric, query),
        index.is_search_result(metric, query, k, one),
        index.is_search_result(metric, query, k, other),
    ensures
        match one {
            Ok(hits) => other is Ok && other->Ok_0@ == hits@,
            Err(e) => other == Err::<Vec<(usize, u32)>, EngineError>(e),
        },
{
    if one is Ok {
        let a = one->Ok_0@;
        let b = other->Ok_0@;
        let scores = choose|scores: Seq<u32>|
            index.scored_by(metric, query, scores) && #[trigger] is_top_k(scores, k, a);
        let others = choose|scores: Seq<u32>|
            index.scored_by(metric, query, scores) && #[trigger] is_top_k(scores, k, b);
        assert(scores =~= others);
        lemma_top_k_unique(scores, k, a, b);
    }
}

/// The scores that `metric` gives depend on what the stored vector holds only.
pub open spec fn reads_contents<F: Fn(&Vec<u32>, &Vec<u32>) -> u32>(metric: F) -> bool {
    forall|one: Vec<u32>, other: Vec<u32>, query: &Vec<u32>, score: u32|
        #![trigger call_ensures(metric, (&one, query), score), call_ensures(metric, (&other, query), score)]
        one@ == other@ ==> call_ensures(metric, (&one, query), score) == call_ensures(
            metric,
            (&other, query),
            score,
        )
}

/// Indexes that hold the same vectors at the same row ids answer alike: under
/// a metric whose scores depend on what a stored vector holds only, an outcome
/// of a search on one of them is an outcome of that search on the other. So an
/// index that was loaded answers as the index that was saved.
pub proof fn lemma_search_by_contents<F: Fn(&Vec<u32>, &Vec<u32>) -> u32>(
    one: &SimilarityIndex,
    other: &SimilarityIndex,
    metric: F,
    query: &Vec<u32>,
    k: nat,
    result: Result<Vec<(usize, u32)>, EngineError>,
)
    requires
        one@ == other@,
        reads_contents(metric),
        one.is_search_result(metric, query, k, result),
    ensures
        other.is_search_result(metric, query, k, result),
{
    if result is Ok {
        let hits = result->Ok_0@;
        let scores = choose|scores: Seq<u32>|
            one.scored_by(metric, query, scores) && #[trigger] is_top_k(scores, k, hits);
        assert(row_views(one.vectors()).len() == row_views(other.vectors()).len());
        assert forall|r: int| 0 <= r < scores.len() implies call_ensures(
            metric,
            (&other.vectors()[r], query),
            #[trigger] scores[r],
        ) by {
            assert(row_views(one.vectors())[r] == row_views(other.vectors())[r]);
        }
    }
}

} // verus!
