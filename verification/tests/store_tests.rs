use vecstore::similarity::{cosine_score, SCORE_ONE};
use vecstore::store::{StoredDocument, VectorStore};
use vecstore::error::StoreError;

fn doc(id: &str, content: &str, embedding: Vec<i64>) -> StoredDocument {
    StoredDocument {
        id: id.to_string(),
        content: content.to_string(),
        embedding,
        metadata: Vec::new(),
        created_at: 0,
    }
}

#[test]
fn cosine_of_a_vector_with_itself_is_one() {
    let v: Vec<i64> = vec![3, 4, 12];
    assert_eq!(cosine_score(&v, &v), SCORE_ONE);
}

#[test]
fn cosine_against_zero_vector_is_zero() {
    let v: Vec<i64> = vec![5, -7, 11];
    let z: Vec<i64> = vec![0, 0, 0];
    assert_eq!(cosine_score(&v, &z), 0);
    assert_eq!(cosine_score(&z, &v), 0);
    assert_eq!(cosine_score(&z, &z), 0);
}

#[test]
fn cosine_exact_fixed_point_value() {
    // dot = 24, both norms 5, so the score is 24/25 scaled: 960_000.
    let v: Vec<i64> = vec![3, 4];
    let w: Vec<i64> = vec![4, 3];
    assert_eq!(cosine_score(&v, &w), 960_000);
}

#[test]
fn cosine_of_opposite_vectors_is_minus_one() {
    let v: Vec<i64> = vec![2, 0, 0];
    let w: Vec<i64> = vec![-2, 0, 0];
    assert_eq!(cosine_score(&v, &w), -SCORE_ONE);
}

#[test]
fn create_rejects_zero_dimension() {
    let r = VectorStore::create(0, "m".to_string());
    assert!(matches!(r, Err(StoreError::ConfigError { .. })));
}

#[test]
fn search_orthogonal_documents() {
    // Store with dimension 3 and unit documents a, b, c; searching for a's
    // vector puts "a" first with a score of one, then the score-zero ties in
    // insertion order.
    let mut st = VectorStore::create(3, "test-model".to_string()).unwrap();
    st.add(doc("a", "first", vec![1, 0, 0])).unwrap();
    st.add(doc("b", "second", vec![0, 1, 0])).unwrap();
    st.add(doc("c", "third", vec![0, 0, 1])).unwrap();

    let hits = st.search(&vec![1, 0, 0], 2).unwrap();
    assert_eq!(hits.len(), 2);
    assert_eq!(hits[0], (SCORE_ONE, 0));
    assert_eq!(st.document(hits[0].1).id, "a");
    assert_eq!(hits[1].0, 0);
    assert_eq!(st.document(hits[1].1).id, "b");
}

#[test]
fn search_is_stable_across_repeated_calls() {
    let mut st = VectorStore::create(2, "m".to_string()).unwrap();
    st.add(doc("a", "", vec![1, 1])).unwrap();
    st.add(doc("b", "", vec![1, 1])).unwrap();
    st.add(doc("c", "", vec![2, 2])).unwrap();
    let first = st.search(&vec![1, 1], 3).unwrap();
    let second = st.search(&vec![1, 1], 3).unwrap();
    assert_eq!(first, second);
    // Equal scores keep insertion order.
    assert_eq!(first[0].1, 0);
    assert_eq!(first[1].1, 1);
    assert_eq!(first[2].1, 2);
}

#[test]
fn search_respects_k() {
    let mut st = VectorStore::create(2, "m".to_string()).unwrap();
    st.add(doc("a", "", vec![1, 0])).unwrap();
    st.add(doc("b", "", vec![0, 1])).unwrap();
    assert_eq!(st.search(&vec![1, 0], 0).unwrap().len(), 0);
    assert_eq!(st.search(&vec![1, 0], 1).unwrap().len(), 1);
    assert_eq!(st.search(&vec![1, 0], 2).unwrap().len(), 2);
    assert_eq!(st.search(&vec![1, 0], 100).unwrap().len(), 2);
}

#[test]
fn search_on_empty_store_is_empty() {
    let st = VectorStore::create(4, "m".to_string()).unwrap();
    assert_eq!(st.search(&vec![1, 2, 3, 4], 10).unwrap().len(), 0);
}

#[test]
fn search_rejects_wrong_query_length() {
    let st = VectorStore::create(3, "m".to_string()).unwrap();
    let r = st.search(&vec![1, 0], 1);
    assert!(matches!(
        r,
        Err(StoreError::DimensionMismatch { expected: 3, found: 2 })
    ));
}

#[test]
fn add_rejects_wrong_dimension_and_leaves_store_unchanged() {
    // A length-4 embedding cannot enter a dimension-3 store.
    let mut st = VectorStore::create(3, "m".to_string()).unwrap();
    st.add(doc("a", "kept", vec![1, 2, 3])).unwrap();
    let r = st.add(doc("bad", "dropped", vec![1, 2, 3, 4]));
    assert!(matches!(
        r,
        Err(StoreError::DimensionMismatch { expected: 3, found: 4 })
    ));
    assert_eq!(st.len(), 1);
    assert_eq!(st.document(0).id, "a");
    assert_eq!(st.document(0).content, "kept");
}

#[test]
fn add_all_appends_in_order() {
    let mut st = VectorStore::create(2, "m".to_string()).unwrap();
    st.add_all(vec![
        doc("a", "", vec![1, 0]),
        doc("b", "", vec![0, 1]),
    ])
    .unwrap();
    assert_eq!(st.len(), 2);
    assert_eq!(st.document(0).id, "a");
    assert_eq!(st.document(1).id, "b");
}

#[test]
fn add_all_stops_at_the_first_mismatch() {
    // The first mismatching document aborts the bulk append with its own
    // error; the documents before it stay appended.
    let mut st = VectorStore::create(2, "m".to_string()).unwrap();
    let r = st.add_all(vec![
        doc("a", "", vec![1, 0]),
        doc("bad", "", vec![1, 2, 3]),
        doc("c", "", vec![0, 1]),
    ]);
    assert!(matches!(
        r,
        Err(StoreError::DimensionMismatch { expected: 2, found: 3 })
    ));
    assert_eq!(st.len(), 1);
    assert_eq!(st.document(0).id, "a");
}

#[test]
fn from_parts_validates_every_document() {
    let r = VectorStore::from_parts(
        2,
        "m".to_string(),
        vec![doc("a", "", vec![1, 0]), doc("b", "", vec![1, 2, 3])],
    );
    assert!(matches!(
        r,
        Err(StoreError::DimensionMismatch { expected: 2, .. })
    ));
}

#[test]
fn store_exposes_dimension_and_model() {
    let st = VectorStore::create(7, "gemini-embedding-exp-03-07".to_string()).unwrap();
    assert_eq!(st.dimension(), 7);
    assert_eq!(st.model_name(), "gemini-embedding-exp-03-07");
    assert_eq!(st.len(), 0);
}
