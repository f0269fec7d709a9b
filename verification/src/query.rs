//! Queries that answer with document identifiers in place of row ids.

use vstd::prelude::*;
use crate::error::EngineError;
use crate::index::SimilarityIndex;
use crate::ranking::is_top_k;

verus! {

/// `result` is what the hits `hits` become when each row is named by its
/// document identifier: the identifier of each row with the score of the hit,
/// in the order of the hits, where `ids` has an entry for every row among the
/// hits, and else `UnknownRow` with the row of the earliest hit that has none.
pub open spec fn is_resolution(
    hits: Seq<(usize, u32)>,
    ids: Seq<String>,
    result: Result<Vec<(String, u32)>, EngineError>,
) -> bool {
    match result {
        Ok(named) => {
            &&& named@.len() == hits.len()
            &&& forall|p: int|
                0 <= p < hits.len() ==> (#[trigger] hits[p]).0 < ids.len() && named@[p].0@
                    == ids[hits[p].0 as int]@ && named@[p].1 == hits[p].1
        },
        Err(e) => exists|p: int|
            {
                &&& 0 <= p < hits.len()
                &&& (#[trigger] hits[p]).0 >= ids.len()
                &&& e == (EngineError::UnknownRow { row: hits[p].0 })
                &&& forall|q: int| 0 <= q < p ==> (#[trigger] hits[q]).0 < ids.len()
            },
    }
}

/// Names each row of `hits` by its document identifier, which `ids` holds at
/// the position of the row id.
pub fn resolve(hits: &Vec<(usize, u32)>, ids: &Vec<String>) -> (result: Result<
    Vec<(String, u32)>,
    EngineError,
>)
    ensures
        is_resolution(hits@, ids@, result),
{
    let mut named: Vec<(String, u32)> = Vec::new();
    let mut p: usize = 0;
    while p < hits.len()
        invariant
            p <= hits.len(),
            named@.len() == p,
            forall|q: int|
                0 <= q < p ==> (#[trigger] hits@[q]).0 < ids@.len() && named@[q].0@
                    == ids@[hits@[q].0 as int]@ && named@[q].1 == hits@[q].1,
        decreases hits.len() - p,
    {
        let row: usize = hits[p].0;
        let score: u32 = hits[p].1;
        if row >= ids.len() {
            return Err(EngineError::UnknownRow { row });
        }
        named.push((ids[row].clone(), score));
        p = p + 1;
    }
    Ok(named)
}

/// `result` is an outcome of asking `index` for the `k` documents nearest to
/// `query` under `metric`: the outcome of the search with each row named by
/// its identifier in `ids`, or the failure of the search.
pub open spec fn is_query_result<F: Fn(&Vec<u32>, &Vec<u32>) -> u32>(
    index: &SimilarityIndex,
    metric: F,
    query: &Vec<u32>,
    k: nat,
    ids: Seq<String>,
    result: Result<Vec<(String, u32)>, EngineError>,
) -> bool {
    if query@.len() != index@.dimension {
        result == Err::<Vec<(String, u32)>, EngineError>(EngineError::DimensionMismatch)
    } else {
        exists|scores: Seq<u32>, hits: Seq<(usize, u32)>|
            {
                &&& index.scored_by(metric, query, scores)
                &&& #[trigger] is_top_k(scores, k, hits)
                &&& is_resolution(hits, ids, result)
            }
    }
}

/// Finds the `k` documents nearest to `query_vector`: searches `index` and names each
/// row found by its document identifier, which `ids` holds at the position of
/// the row id. Fails as the search fails, and with `UnknownRow` where `ids`
/// has no entry for a row that the search found.
pub fn query<F: Fn(&Vec<u32>, &Vec<u32>) -> u32>(
    query_vector: &Vec<u32>,
    index: &SimilarityIndex,
    ids: &Vec<String>,
    k: usize,
    metric: F,
) -> (result: Result<Vec<(String, u32)>, EngineError>)
    requires
        query_vector@.len() == index@.dimension ==> forall|r: int|
            0 <= r < index.vectors().len() ==> call_requires(
                metric,
                (&#[trigger] index.vectors()[r], query_vector),
            ),
    ensures
        is_query_result(index, metric, query_vector, k as nat, ids@, result),
{
    match index.search(query_vector, k, metric) {
        Ok(hits) => resolve(&hits, ids),
        Err(e) => Err(e),
    }
}

} // verus!
