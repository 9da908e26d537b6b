use vecstore::pipeline::{
    chunk_texts, concat_batches, count_dimension_drift, first_embedding, get_embedding_dimension,
    DEFAULT_MAX_BATCH_SIZE, EMBEDDING_DIMENSION,
};

#[test]
fn empty_input_needs_no_batches() {
    // No texts: no batches, so no provider calls at all.
    let chunks = chunk_texts(Vec::new(), DEFAULT_MAX_BATCH_SIZE);
    assert_eq!(chunks.len(), 0);
}

#[test]
fn batching_is_contiguous_ordered_and_ceil_counted() {
    // Seven texts at batch size three: ceil(7/3) = 3 groups, sizes 3, 3, 1,
    // concatenating back to the input in order.
    let texts: Vec<String> = (0..7).map(|i| format!("text-{}", i)).collect();
    let chunks = chunk_texts(texts.clone(), 3);
    assert_eq!(chunks.len(), 3);
    assert_eq!(chunks[0].len(), 3);
    assert_eq!(chunks[1].len(), 3);
    assert_eq!(chunks[2].len(), 1);
    let rebuilt: Vec<String> = chunks.into_iter().flatten().collect();
    assert_eq!(rebuilt, texts);
}

#[test]
fn one_batch_when_input_fits() {
    let texts: Vec<String> = (0..100).map(|i| i.to_string()).collect();
    let chunks = chunk_texts(texts, DEFAULT_MAX_BATCH_SIZE);
    assert_eq!(chunks.len(), 1);
    assert_eq!(chunks[0].len(), 100);
}

#[test]
fn exact_multiple_has_no_ragged_batch() {
    let texts: Vec<String> = (0..6).map(|i| i.to_string()).collect();
    let chunks = chunk_texts(texts, 2);
    assert_eq!(chunks.len(), 3);
    for c in &chunks {
        assert_eq!(c.len(), 2);
    }
}

#[test]
fn concatenation_preserves_batch_order() {
    let batches: Vec<Vec<Vec<i64>>> = vec![
        vec![vec![1, 2], vec![3, 4]],
        vec![vec![5, 6]],
        vec![],
        vec![vec![7, 8]],
    ];
    let out = concat_batches(batches);
    assert_eq!(out, vec![vec![1, 2], vec![3, 4], vec![5, 6], vec![7, 8]]);
}

#[test]
fn drift_count_reports_wrong_lengths_only() {
    let embeddings: Vec<Vec<i64>> = vec![vec![1, 2, 3], vec![1, 2], vec![4, 5, 6], vec![]];
    assert_eq!(count_dimension_drift(&embeddings, 3), 2);
    assert_eq!(count_dimension_drift(&embeddings, 2), 3);
    assert_eq!(count_dimension_drift(&Vec::new(), 3), 0);
}

#[test]
fn first_embedding_of_empty_result_is_none() {
    assert_eq!(first_embedding(Vec::new()), None);
}

#[test]
fn first_embedding_takes_the_first() {
    let r = first_embedding(vec![vec![1, 2], vec![3, 4]]);
    assert_eq!(r, Some(vec![1, 2]));
}

#[test]
fn test_embedding_dimension() {
    let dimension = get_embedding_dimension();
    assert_eq!(dimension, EMBEDDING_DIMENSION);
    assert_eq!(dimension, 3072);
}
