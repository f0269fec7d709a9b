use semantic_search::error::EngineError;
use semantic_search::index::SimilarityIndex;
use semantic_search::query::{query, resolve};
use semantic_search::store::{RecordStore, VectorRecord};
use semantic_search::corpus::{is_text_extension, same_text};
use semantic_search::session::{command, startup, Command, Startup, RESULTS_PER_QUERY};

fn bits(v: &[f32]) -> Vec<u32> {
    v.iter().map(|x| x.to_bits()).collect()
}

fn inner_product(a: &Vec<u32>, b: &Vec<u32>) -> u32 {
    let mut sum = 0.0f32;
    for i in 0..a.len() {
        sum += f32::from_bits(a[i]) * f32::from_bits(b[i]);
    }
    sum.to_bits()
}

fn names(ids: &[&str]) -> Vec<String> {
    ids.iter().map(|s| s.to_string()).collect()
}

fn three_rows() -> SimilarityIndex {
    SimilarityIndex::build(vec![bits(&[1.0, 0.0]), bits(&[0.0, 1.0]), bits(&[0.9, 0.1])]).unwrap()
}

#[test]
fn documents_nearest_to_a_query() {
    let ids = names(&["a.txt", "b.md", "c.pdf"]);
    let found = query(&bits(&[1.0, 0.0]), &three_rows(), &ids, 2, inner_product).unwrap();
    assert_eq!(
        found,
        vec![("a.txt".to_string(), 1.0f32.to_bits()), ("c.pdf".to_string(), 0.9f32.to_bits())]
    );
}

#[test]
fn query_clamps_as_search_does() {
    let ids = names(&["a", "b", "c"]);
    let found = query(&bits(&[0.0, 1.0]), &three_rows(), &ids, 7, inner_product).unwrap();
    assert_eq!(
        found,
        vec![
            ("b".to_string(), 1.0f32.to_bits()),
            ("c".to_string(), 0.1f32.to_bits()),
            ("a".to_string(), 0.0f32.to_bits())
        ]
    );
}

#[test]
fn query_of_wrong_dimension_fails_as_search_does() {
    let ids = names(&["a", "b", "c"]);
    let found = query(&bits(&[1.0, 0.0, 0.0]), &three_rows(), &ids, 2, inner_product);
    assert_eq!(found, Err(EngineError::DimensionMismatch));
    let found = query(&bits(&[1.0, 0.0, 0.0]), &three_rows(), &Vec::new(), 2, inner_product);
    assert_eq!(found, Err(EngineError::DimensionMismatch));
}

#[test]
fn row_without_identifier() {
    let ids = names(&["a", "b"]);
    let found = query(&bits(&[1.0, 0.0]), &three_rows(), &ids, 2, inner_product);
    assert_eq!(found, Err(EngineError::UnknownRow { row: 2 }));
    let found = query(&bits(&[1.0, 0.0]), &three_rows(), &ids, 1, inner_product);
    assert_eq!(found, Ok(vec![("a".to_string(), 1.0f32.to_bits())]));
    let found = query(&bits(&[1.0, 0.0]), &three_rows(), &Vec::new(), 3, inner_product);
    assert_eq!(found, Err(EngineError::UnknownRow { row: 0 }));
}

#[test]
fn earliest_hit_without_identifier_is_reported() {
    let hits = vec![(1, 5), (7, 4), (0, 3), (9, 2)];
    assert_eq!(resolve(&hits, &names(&["a", "b"])), Err(EngineError::UnknownRow { row: 7 }));
    let hits = vec![(1, 5), (0, 3)];
    assert_eq!(
        resolve(&hits, &names(&["a", "b"])),
        Ok(vec![("b".to_string(), 5), ("a".to_string(), 3)])
    );
    assert_eq!(resolve(&Vec::new(), &Vec::new()), Ok(Vec::new()));
}

#[test]
fn index_from_records() {
    let mut store = RecordStore::new();
    assert_eq!(store.len(), 0);
    store.push(VectorRecord { id: "a.txt".to_string(), vector: bits(&[1.0, 0.0]) });
    store.push(VectorRecord { id: "b.txt".to_string(), vector: bits(&[0.0, 1.0]) });
    store.push(VectorRecord { id: "c.txt".to_string(), vector: bits(&[0.9, 0.1]) });
    assert_eq!(store.len(), 3);
    let (index, ids) = store.build_index().unwrap();
    assert_eq!(ids, names(&["a.txt", "b.txt", "c.txt"]));
    assert_eq!(index.row_count(), 3);
    assert_eq!(index.row(2), Some(&bits(&[0.9, 0.1])));
    let found = query(&bits(&[1.0, 0.0]), &index, &ids, 2, inner_product).unwrap();
    assert_eq!(
        found,
        vec![("a.txt".to_string(), 1.0f32.to_bits()), ("c.txt".to_string(), 0.9f32.to_bits())]
    );
}

#[test]
fn index_from_no_records_is_refused() {
    assert!(matches!(RecordStore::new().build_index(), Err(EngineError::EmptyInput)));
}

#[test]
fn index_from_records_of_different_dimension_is_refused() {
    let mut store = RecordStore::new();
    store.push(VectorRecord { id: "a".to_string(), vector: bits(&[1.0, 0.0]) });
    store.push(VectorRecord { id: "b".to_string(), vector: bits(&[1.0, 0.0, 0.0]) });
    assert!(matches!(store.build_index(), Err(EngineError::DimensionMismatch)));
}

#[test]
fn extensions_of_documents() {
    assert!(is_text_extension("txt"));
    assert!(is_text_extension("md"));
    assert!(is_text_extension("pdf"));
    assert!(!is_text_extension("TXT"));
    assert!(!is_text_extension("tx"));
    assert!(!is_text_extension("txtx"));
    assert!(!is_text_extension(""));
    assert!(!is_text_extension("rs"));
    assert!(!is_text_extension("mdé"));
}

#[test]
fn texts_compared_character_by_character() {
    assert!(same_text("", ""));
    assert!(same_text("aé", "aé"));
    assert!(!same_text("a", "b"));
    assert!(!same_text("a", "ab"));
    assert!(!same_text("ab", "a"));
}

#[test]
fn session_builds_the_index_where_nothing_is_stored() {
    assert_eq!(startup(0), Startup::BuildIndex);
    assert_eq!(startup(1), Startup::LoadIndex);
    assert_eq!(startup(u64::MAX), Startup::LoadIndex);
}

#[test]
fn session_ends_on_q() {
    assert_eq!(command("q"), Command::Quit);
    assert_eq!(command("Q"), Command::Search);
    assert_eq!(command("quit"), Command::Search);
    assert_eq!(command(""), Command::Search);
    assert_eq!(command(" q"), Command::Search);
    assert_eq!(command("what is a vector"), Command::Search);
    assert_eq!(RESULTS_PER_QUERY, 5);
}
