use semantic_search::error::EngineError;
use semantic_search::index::SimilarityIndex;
use semantic_search::ranking::top_k;
use semantic_search::score::key_of;

fn bits(v: &[f32]) -> Vec<u32> {
    v.iter().map(|x| x.to_bits()).collect()
}

fn inner_product(a: &Vec<u32>, b: &Vec<u32>) -> u32 {
    let mut sum = 0.0f32;
    for i in 0..a.len() {
        sum += f32::from_bits(a[i]) * f32::from_bits(b[i]);
    }
    sum.to_bits()
}

fn three_rows() -> SimilarityIndex {
    SimilarityIndex::build(vec![bits(&[1.0, 0.0]), bits(&[0.0, 1.0]), bits(&[0.9, 0.1])]).unwrap()
}

#[test]
fn nearest_two_of_three() {
    let hits = three_rows().search(&bits(&[1.0, 0.0]), 2, inner_product).unwrap();
    assert_eq!(hits, vec![(0, 1.0f32.to_bits()), (2, 0.9f32.to_bits())]);
}

#[test]
fn build_keeps_rows_in_order() {
    let index = three_rows();
    assert_eq!(index.dimension(), 2);
    assert_eq!(index.row_count(), 3);
    assert_eq!(index.row(0), Some(&bits(&[1.0, 0.0])));
    assert_eq!(index.row(1), Some(&bits(&[0.0, 1.0])));
    assert_eq!(index.row(2), Some(&bits(&[0.9, 0.1])));
    assert_eq!(index.row(3), None);
}

#[test]
fn build_from_nothing_is_refused() {
    assert!(matches!(SimilarityIndex::build(Vec::new()), Err(EngineError::EmptyInput)));
}

#[test]
fn build_from_vectors_of_different_length_is_refused() {
    let r = SimilarityIndex::build(vec![bits(&[1.0, 0.0]), bits(&[1.0]), bits(&[0.5, 0.5])]);
    assert!(matches!(r, Err(EngineError::DimensionMismatch)));
    let r = SimilarityIndex::build(vec![bits(&[1.0]), bits(&[1.0]), bits(&[0.5, 0.5])]);
    assert!(matches!(r, Err(EngineError::DimensionMismatch)));
    let r = SimilarityIndex::build(vec![bits(&[]), bits(&[1.0])]);
    assert!(matches!(r, Err(EngineError::DimensionMismatch)));
}

#[test]
fn build_from_vectors_without_components() {
    let index = SimilarityIndex::build(vec![Vec::new(), Vec::new()]).unwrap();
    assert_eq!(index.dimension(), 0);
    assert_eq!(index.row_count(), 2);
    let hits = index.search(&Vec::new(), 5, inner_product).unwrap();
    assert_eq!(hits, vec![(0, 0.0f32.to_bits()), (1, 0.0f32.to_bits())]);
}

#[test]
fn query_of_wrong_dimension_is_refused() {
    let index = three_rows();
    assert_eq!(index.search(&bits(&[1.0]), 1, inner_product), Err(EngineError::DimensionMismatch));
    assert_eq!(
        index.search(&bits(&[1.0, 0.0, 0.0]), 1, inner_product),
        Err(EngineError::DimensionMismatch)
    );
}

#[test]
fn more_asked_for_than_there_are_rows() {
    let index = three_rows();
    let hits = index.search(&bits(&[1.0, 0.0]), 10, inner_product).unwrap();
    assert_eq!(hits, vec![(0, 1.0f32.to_bits()), (2, 0.9f32.to_bits()), (1, 0.0f32.to_bits())]);
    let hits = index.search(&bits(&[1.0, 0.0]), usize::MAX, inner_product).unwrap();
    assert_eq!(hits.len(), 3);
}

#[test]
fn as_many_as_asked_for() {
    let index = three_rows();
    for k in 0..=3 {
        assert_eq!(index.search(&bits(&[0.3, 0.7]), k, inner_product).unwrap().len(), k);
    }
}

#[test]
fn nothing_asked_for() {
    assert_eq!(three_rows().search(&bits(&[1.0, 0.0]), 0, inner_product), Ok(Vec::new()));
}

#[test]
fn index_without_rows_finds_nothing() {
    let index = SimilarityIndex::empty(2);
    assert_eq!(index.dimension(), 2);
    assert_eq!(index.row_count(), 0);
    assert_eq!(index.search(&bits(&[1.0, 0.0]), 3, inner_product), Ok(Vec::new()));
    assert_eq!(index.search(&bits(&[1.0]), 3, inner_product), Err(EngineError::DimensionMismatch));
}

#[test]
fn equal_scores_by_ascending_row() {
    let index = SimilarityIndex::build(vec![
        bits(&[0.5, 0.0]),
        bits(&[1.0, 0.0]),
        bits(&[0.5, 9.0]),
        bits(&[1.0, 3.0]),
        bits(&[0.5, -2.0]),
    ])
    .unwrap();
    let hits = index.search(&bits(&[1.0, 0.0]), 5, inner_product).unwrap();
    let rows: Vec<usize> = hits.iter().map(|h| h.0).collect();
    assert_eq!(rows, vec![1, 3, 0, 2, 4]);
    let hits = index.search(&bits(&[1.0, 0.0]), 3, inner_product).unwrap();
    assert_eq!(hits, vec![(1, 1.0f32.to_bits()), (3, 1.0f32.to_bits()), (0, 0.5f32.to_bits())]);
}

#[test]
fn search_twice_gives_the_same() {
    let index = SimilarityIndex::build(vec![
        bits(&[0.2, 0.4]),
        bits(&[0.4, 0.2]),
        bits(&[0.2, 0.4]),
        bits(&[-0.3, 0.9]),
    ])
    .unwrap();
    let query = bits(&[0.6, 0.6]);
    let one = index.search(&query, 3, inner_product);
    let other = index.search(&query, 3, inner_product);
    assert_eq!(one, other);
    assert_eq!(one.unwrap().iter().map(|h| h.0).collect::<Vec<usize>>(), vec![0, 1, 2]);
}

#[test]
fn row_equal_to_the_query_comes_out_on_top() {
    let rows: Vec<Vec<f32>> =
        vec![vec![0.6, 0.8], vec![1.0, 0.0], vec![0.0, 1.0], vec![-0.6, -0.8], vec![0.8, 0.6]];
    let index = SimilarityIndex::build(rows.iter().map(|r| bits(r)).collect()).unwrap();
    for (row, vector) in rows.iter().enumerate() {
        let query = bits(vector);
        let hits = index.search(&query, 1, inner_product).unwrap();
        assert_eq!(hits, vec![(row, inner_product(&query, &query))]);
    }
}

#[test]
fn row_equal_to_the_query_twice_in_the_index() {
    let index =
        SimilarityIndex::build(vec![bits(&[0.0, 1.0]), bits(&[1.0, 0.0]), bits(&[1.0, 0.0])]).unwrap();
    let hits = index.search(&bits(&[1.0, 0.0]), 2, inner_product).unwrap();
    assert_eq!(hits, vec![(1, 1.0f32.to_bits()), (2, 1.0f32.to_bits())]);
}

#[test]
fn scores_are_inner_products_not_cosines() {
    let index = SimilarityIndex::build(vec![bits(&[1.0, 0.0]), bits(&[3.0, 4.0])]).unwrap();
    let hits = index.search(&bits(&[1.0, 0.0]), 2, inner_product).unwrap();
    assert_eq!(hits, vec![(1, 3.0f32.to_bits()), (0, 1.0f32.to_bits())]);
}

#[test]
fn ranking_of_given_scores() {
    let scores = bits(&[0.25, -1.5, 7.0, 0.25, -0.0, 0.0]);
    let hits = top_k(&scores, 4);
    assert_eq!(
        hits,
        vec![
            (2, 7.0f32.to_bits()),
            (0, 0.25f32.to_bits()),
            (3, 0.25f32.to_bits()),
            (4, (-0.0f32).to_bits())
        ]
    );
    let all = top_k(&scores, 6);
    assert_eq!(all.iter().map(|h| h.0).collect::<Vec<usize>>(), vec![2, 0, 3, 4, 5, 1]);
    assert_eq!(top_k(&Vec::new(), 3), Vec::new());
    assert_eq!(top_k(&scores, 0), Vec::new());
}

#[test]
fn ranking_takes_a_late_best_row() {
    let scores = bits(&[1.0, 2.0, 3.0, 4.0, 5.0]);
    assert_eq!(top_k(&scores, 2), vec![(4, 5.0f32.to_bits()), (3, 4.0f32.to_bits())]);
    let scores = bits(&[5.0, 4.0, 3.0, 2.0, 1.0]);
    assert_eq!(top_k(&scores, 2), vec![(0, 5.0f32.to_bits()), (1, 4.0f32.to_bits())]);
}

#[test]
fn keys_order_scores_as_numbers() {
    let values = [
        f32::NEG_INFINITY,
        f32::MIN,
        -2.5,
        -1.0,
        -f32::MIN_POSITIVE,
        -1.0e-45,
        -0.0,
        0.0,
        1.0e-45,
        f32::MIN_POSITIVE,
        0.9,
        1.0,
        2.5,
        f32::MAX,
        f32::INFINITY,
    ];
    for a in values {
        for b in values {
            let ka = key_of(a.to_bits());
            let kb = key_of(b.to_bits());
            assert_eq!(ka < kb, a < b);
            assert_eq!(ka == kb, a == b);
        }
    }
}

#[test]
fn keys_of_chosen_patterns() {
    assert_eq!(key_of(0), 0);
    assert_eq!(key_of(0x8000_0000), 0);
    assert_eq!(key_of(1.0f32.to_bits()), 0x3f80_0000);
    assert_eq!(key_of((-1.0f32).to_bits()), -0x3f80_0000);
    assert_eq!(key_of(0x7fff_ffff), 0x7fff_ffff);
    assert_eq!(key_of(0xffff_ffff), -0x7fff_ffff);
}
