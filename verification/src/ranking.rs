//! Ranking rows by their scores: best score before worse, equal scores by
//! ascending row id, cut off after the number of rows asked for.

use vstd::prelude::*;
use crate::score::{key_of, score_key};

verus! {

/// Row `a` comes before row `b` in the ranking of `scores`: it has the better
/// score, or the same score and the smaller row id.
pub open spec fn outranks(scores: Seq<u32>, a: int, b: int) -> bool {
    score_key(scores[a]) > score_key(scores[b]) || (score_key(scores[a]) == score_key(scores[b])
        && a < b)
}

/// Some entry of `hits` names `row`.
pub open spec fn lists_row(hits: Seq<(usize, u32)>, row: int) -> bool {
    exists|p: int| 0 <= p < hits.len() && (#[trigger] hits[p]).0 == row
}

/// `hits` is the ranking of the rows `0..rows` of `scores`, cut off after `k`
/// entries: each entry is a row with its score, the entries stand in ranking
/// order, and every row left out is outranked by every entry.
pub open spec fn is_top_k_of(scores: Seq<u32>, rows: int, k: nat, hits: Seq<(usize, u32)>) -> bool {
    &&& hits.len() == if k <= rows { k as int } else { rows }
    &&& forall|p: int|
        0 <= p < hits.len() ==> 0 <= (#[trigger] hits[p]).0 < rows && hits[p].1
            == scores[hits[p].0 as int]
    &&& forall|p: int, q: int|
        #![trigger hits[p], hits[q]]
        0 <= p < q < hits.len() ==> outranks(scores, hits[p].0 as int, hits[q].0 as int)
    &&& rows <= k ==> forall|r: int| 0 <= r < rows ==> #[trigger] lists_row(hits, r)
    &&& forall|r: int, p: int|
        #![trigger lists_row(hits, r), hits[p]]
        0 <= r < rows && !lists_row(hits, r) && 0 <= p < hits.len() ==> outranks(
            scores,
            hits[p].0 as int,
            r,
        )
}

/// `hits` is the ranking of all rows of `scores`, cut off after `k` entries.
pub open spec fn is_top_k(scores: Seq<u32>, k: nat, hits: Seq<(usize, u32)>) -> bool {
    is_top_k_of(scores, scores.len() as int, k, hits)
}

/// The ranking order is transitive.
pub proof fn lemma_outranks_transitive(scores: Seq<u32>, a: int, b: int, c: int)
    requires
        outranks(scores, a, b),
        outranks(scores, b, c),
    ensures
        outranks(scores, a, c),
{
}

/// Of two different rows, exactly one outranks the other.
pub proof fn lemma_outranks_total(scores: Seq<u32>, a: int, b: int)
    requires
        a != b,
    ensures
        outranks(scores, a, b) != outranks(scores, b, a),
{
}

/// What `hits` becomes when the row `row` is taken into a ranking that is cut
/// off after `k` entries and in which `slot` is the place of `row`.
pub open spec fn with_row(hits: Seq<(usize, u32)>, k: nat, slot: int, row: usize, score: u32) -> Seq<
    (usize, u32),
> {
    if slot < k {
        let longer = hits.insert(slot, (row, score));
        if longer.len() > k {
            longer.drop_last()
        } else {
            longer
        }
    } else {
        hits
    }
}

/// Taking the next row into the ranking of the rows before it gives the ranking
/// of the rows up to it.
proof fn lemma_take_row(scores: Seq<u32>, row: usize, k: nat, hits: Seq<(usize, u32)>, slot: int)
    requires
        0 <= row < scores.len(),
        is_top_k_of(scores, row as int, k, hits),
        0 <= slot <= hits.len(),
        forall|p: int| 0 <= p < slot ==> score_key((#[trigger] hits[p]).1) >= score_key(scores[row as int]),
        forall|p: int|
            slot <= p < hits.len() ==> score_key((#[trigger] hits[p]).1) < score_key(scores[row as int]),
    ensures
        is_top_k_of(scores, row + 1, k, with_row(hits, k, slot, row, scores[row as int])),
{
    let score = scores[row as int];
    if slot < k {
        let longer = hits.insert(slot, (row, score));
        // a row that was listed keeps its entry, at its place or one behind it
        assert forall|r: int| lists_row(hits, r) implies lists_row(longer, r) by {
            let p = choose|p: int| 0 <= p < hits.len() && (#[trigger] hits[p]).0 == r;
            if p < slot {
                assert(longer[p] == hits[p]);
            } else {
                assert(longer[p + 1] == hits[p]);
            }
        }
        assert(lists_row(longer, row as int)) by {
            assert(longer[slot].0 == row);
        }
        if longer.len() > k {
            // only the row of the last entry leaves the list
            let cut = longer.drop_last();
            assert forall|r: int| lists_row(longer, r) && r != longer[k as int].0 implies lists_row(
                cut,
                r,
            ) by {
                let p = choose|p: int| 0 <= p < longer.len() && (#[trigger] longer[p]).0 == r;
                assert(cut[p] == longer[p]);
            }
        }
    }
}

/// The place of a new score in `hits`: behind every entry that is at least as
/// good, before every worse one.
fn insertion_slot(hits: &Vec<(usize, u32)>, score: u32) -> (slot: usize)
    requires
        forall|p: int, q: int|
            #![trigger hits[p], hits[q]]
            0 <= p < q < hits.len() ==> score_key(hits[p].1) >= score_key(hits[q].1),
    ensures
        slot <= hits.len(),
        forall|p: int| 0 <= p < slot ==> score_key((#[trigger] hits[p]).1) >= score_key(score),
        forall|p: int| slot <= p < hits.len() ==> score_key((#[trigger] hits[p]).1) < score_key(score),
{
    let key: i64 = key_of(score);
    let mut slot: usize = hits.len();
    while slot > 0 && key_of(hits[slot - 1].1) < key
        invariant
            slot <= hits.len(),
            key == score_key(score),
            forall|p: int|
                slot <= p < hits.len() ==> score_key((#[trigger] hits[p]).1) < score_key(score),
        decreases slot,
    {
        slot = slot - 1;
    }
    slot
}

/// Ranks the rows of `scores` and returns the best `k` of them, or all of them
/// where there are fewer than `k`: each with its score, best score first, rows
/// of equal score by ascending row id.
pub fn top_k(scores: &Vec<u32>, k: usize) -> (hits: Vec<(usize, u32)>)
    ensures
        is_top_k(scores@, k as nat, hits@),
{
    let mut hits: Vec<(usize, u32)> = Vec::new();
    let mut row: usize = 0;
    while row < scores.len()
        invariant
            row <= scores.len(),
            is_top_k_of(scores@, row as int, k as nat, hits@),
        decreases scores.len() - row,
    {
        let score: u32 = scores[row];
        let slot: usize = insertion_slot(&hits, score);
        proof {
            lemma_take_row(scores@, row, k as nat, hits@, slot as int);
        }
        if slot < k {
            hits.insert(slot, (row, score));
            if hits.len() > k {
                hits.pop();
            }
        }
        row = row + 1;
    }
    hits
}

/// Two rankings of the same rows under the same cut-off agree on their first
/// `upto` entries.
proof fn lemma_rankings_agree(
    scores: Seq<u32>,
    rows: int,
    k: nat,
    a: Seq<(usize, u32)>,
    b: Seq<(usize, u32)>,
    upto: int,
)
    requires
        is_top_k_of(scores, rows, k, a),
        is_top_k_of(scores, rows, k, b),
        0 <= upto <= a.len(),
    ensures
        forall|p: int| 0 <= p < upto ==> a[p] == b[p],
    decreases upto,
{
    if upto > 0 {
        lemma_rankings_agree(scores, rows, k, a, b, upto - 1);
        let p = upto - 1;
        let x = a[p].0 as int;
        let y = b[p].0 as int;
        if x != y {
            lemma_outranks_total(scores, x, y);
            if outranks(scores, x, y) {
                lemma_not_behind(scores, rows, k, a, b, p);
            } else {
                lemma_not_behind(scores, rows, k, b, a, p);
            }
        }
    }
}

/// Where two rankings agree before entry `p`, the row that one of them has at
/// `p` does not outrank the row that the other has there.
proof fn lemma_not_behind(
    scores: Seq<u32>,
    rows: int,
    k: nat,
    a: Seq<(usize, u32)>,
    b: Seq<(usize, u32)>,
    p: int,
)
    requires
        is_top_k_of(scores, rows, k, a),
        is_top_k_of(scores, rows, k, b),
        0 <= p < a.len(),
        forall|q: int| 0 <= q < p ==> a[q] == b[q],
        a[p].0 != b[p].0,
    ensures
        !outranks(scores, a[p].0 as int, b[p].0 as int),
{
    // the row of `a` is listed in `b` behind `p`, or left out of `b`: either
    // way the row of `b` at `p` outranks it
    let x = a[p].0 as int;
    if lists_row(b, x) {
        let q = choose|q: int| 0 <= q < b.len() && (#[trigger] b[q]).0 == x;
    }
}

/// The ranking is determined by the scores and the cut-off: two sequences that
/// both are the ranking of `scores` cut off after `k` entries are equal.
pub proof fn lemma_top_k_unique(scores: Seq<u32>, k: nat, a: Seq<(usize, u32)>, b: Seq<(usize, u32)>)
    requires
        is_top_k(scores, k, a),
        is_top_k(scores, k, b),
    ensures
        a == b,
{
    lemma_rankings_agree(scores, scores.len() as int, k, a, b, a.len() as int);
}

/// A row that no row beats leads the ranking, unless an earlier row has the
/// same score: where `row` has a score that no score of `scores` exceeds and at
/// least one entry is asked for, the entry at the head of the ranking has that
/// score, and names `row` or a row before it. It names `row` where every row
/// before `row` has a worse score.
pub proof fn lemma_best_row_leads(scores: Seq<u32>, k: nat, hits: Seq<(usize, u32)>, row: int)
    requires
        is_top_k(scores, k, hits),
        k >= 1,
        0 <= row < scores.len(),
        forall|j: int| 0 <= j < scores.len() ==> score_key(#[trigger] scores[j]) <= score_key(scores[row]),
    ensures
        hits.len() >= 1,
        score_key(hits[0].1) == score_key(scores[row]),
        hits[0].0 <= row,
        (forall|j: int| 0 <= j < row ==> score_key(#[trigger] scores[j]) < score_key(scores[row]))
            ==> hits[0].0 == row,
{
    // `row` has an entry, which the head outranks unless it is the head, or it
    // is left out, and the head outranks it
    if lists_row(hits, row) {
        let p = choose|p: int| 0 <= p < hits.len() && (#[trigger] hits[p]).0 == row;
    }
}

} // verus!
