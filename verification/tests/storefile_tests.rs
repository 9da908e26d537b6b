use vecstore::error::StoreError;
use vecstore::store::{StoredDocument, VectorStore};
use vecstore::storefile::{load, save};

fn sample_store() -> VectorStore {
    let mut st = VectorStore::create(3, "gemini-embedding-exp-03-07".to_string()).unwrap();
    st.add(StoredDocument {
        id: "rust-systems".to_string(),
        content: "Rust is a systems programming language".to_string(),
        embedding: vec![1, -2, 3],
        metadata: vec![
            ("source".to_string(), "documentation".to_string()),
            ("language".to_string(), "rust".to_string()),
        ],
        created_at: 1_700_000_000,
    })
    .unwrap();
    st.add(StoredDocument {
        id: "caf\u{e9}".to_string(),
        content: "caf\u{e9} au lait \u{2615}".to_string(),
        embedding: vec![0, 1_000_000, -1_000_000],
        metadata: Vec::new(),
        created_at: 1_700_000_001,
    })
    .unwrap();
    st
}

#[test]
fn save_then_load_round_trips() {
    // The round trip preserves the dimension, the model tag, and the whole
    // document sequence, order and content included.
    let st = sample_store();
    let bytes = save(&st);
    let back = load(&bytes).unwrap();
    assert_eq!(back.dimension(), st.dimension());
    assert_eq!(back.model_name(), st.model_name());
    assert_eq!(back.len(), st.len());
    for i in 0..st.len() {
        let a = st.document(i);
        let b = back.document(i);
        assert_eq!(a.id, b.id);
        assert_eq!(a.content, b.content);
        assert_eq!(a.embedding, b.embedding);
        assert_eq!(a.metadata, b.metadata);
        assert_eq!(a.created_at, b.created_at);
    }
}

#[test]
fn empty_store_round_trips() {
    let st = VectorStore::create(1, String::new()).unwrap();
    let back = load(&save(&st)).unwrap();
    assert_eq!(back.dimension(), 1);
    assert_eq!(back.model_name(), "");
    assert_eq!(back.len(), 0);
}

#[test]
fn load_rejects_empty_stream() {
    let r = load(&Vec::new());
    assert!(matches!(r, Err(StoreError::PersistenceError { .. })));
}

#[test]
fn load_rejects_wrong_header() {
    let mut bytes = save(&sample_store());
    bytes[0] = 0;
    let r = load(&bytes);
    assert!(matches!(r, Err(StoreError::PersistenceError { .. })));
}

#[test]
fn load_rejects_truncated_stream() {
    let mut bytes = save(&sample_store());
    bytes.pop();
    let r = load(&bytes);
    assert!(matches!(r, Err(StoreError::PersistenceError { .. })));
}

#[test]
fn load_rejects_trailing_bytes() {
    let mut bytes = save(&sample_store());
    bytes.push(0);
    let r = load(&bytes);
    assert!(matches!(r, Err(StoreError::PersistenceError { .. })));
}

fn push_u64_le(out: &mut Vec<u8>, x: u64) {
    for b in x.to_le_bytes() {
        out.push(b);
    }
}

fn hand_written_stream(dimension: u64, embedding_len: u64) -> Vec<u8> {
    let mut bytes = vec![118u8, 115, 102, 49];
    push_u64_le(&mut bytes, dimension);
    push_u64_le(&mut bytes, 0); // empty model tag
    push_u64_le(&mut bytes, 1); // one document
    push_u64_le(&mut bytes, 1); // id of one byte
    bytes.push(b'a');
    push_u64_le(&mut bytes, 0); // empty content
    push_u64_le(&mut bytes, 0); // created_at
    push_u64_le(&mut bytes, 0); // no metadata
    push_u64_le(&mut bytes, embedding_len);
    for _ in 0..embedding_len {
        bytes.push(0); // positive sign
        push_u64_le(&mut bytes, 5);
    }
    bytes
}

#[test]
fn load_revalidates_document_dimensions() {
    // A structurally valid stream whose document has a length-1 embedding in
    // a dimension-3 store fails the defensive revalidation.
    let bytes = hand_written_stream(3, 1);
    let r = load(&bytes);
    assert!(matches!(
        r,
        Err(StoreError::DimensionMismatch { expected: 3, found: 1 })
    ));
}

#[test]
fn load_accepts_hand_written_stream() {
    let bytes = hand_written_stream(2, 2);
    let st = load(&bytes).unwrap();
    assert_eq!(st.dimension(), 2);
    assert_eq!(st.len(), 1);
    assert_eq!(st.document(0).id, "a");
    assert_eq!(st.document(0).embedding, vec![5, 5]);
}

#[test]
fn load_rejects_zero_dimension_stream() {
    let bytes = hand_written_stream(0, 0);
    let r = load(&bytes);
    assert!(matches!(r, Err(StoreError::PersistenceError { .. })));
}

#[test]
fn load_rejects_oversized_component() {
    let mut bytes = vec![118u8, 115, 102, 49];
    push_u64_le(&mut bytes, 1);
    push_u64_le(&mut bytes, 0);
    push_u64_le(&mut bytes, 1);
    push_u64_le(&mut bytes, 1);
    bytes.push(b'a');
    push_u64_le(&mut bytes, 0);
    push_u64_le(&mut bytes, 0);
    push_u64_le(&mut bytes, 0);
    push_u64_le(&mut bytes, 1);
    bytes.push(0);
    push_u64_le(&mut bytes, 2_000_000); // above the component limit
    let r = load(&bytes);
    assert!(matches!(r, Err(StoreError::PersistenceError { .. })));
}

#[test]
fn load_rejects_invalid_utf8_text() {
    let mut bytes = vec![118u8, 115, 102, 49];
    push_u64_le(&mut bytes, 1);
    push_u64_le(&mut bytes, 2); // model tag of two bytes...
    bytes.push(0xff); // ...that are not UTF-8
    bytes.push(0xfe);
    push_u64_le(&mut bytes, 0);
    let r = load(&bytes);
    assert!(matches!(r, Err(StoreError::PersistenceError { .. })));
}
