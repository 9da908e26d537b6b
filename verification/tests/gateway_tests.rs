use uuid::Uuid;
use vecstore::error::{ConfigFault, StoreError};
use vecstore::gateway::{
    add_documents_url, build_add_request, collection_url, collections_url, count_url,
    delete_documents_url, first_query_row, get_documents_url, heartbeat_url, query_url,
    resolve_base_url, trim_trailing_slashes, update_documents_url, validate_url, Document,
    GatewayOperation, GetRequest, QueryRequest,
};

fn meta(pairs: &[(&str, &str)]) -> Vec<(String, String)> {
    pairs.iter().map(|(k, v)| (k.to_string(), v.to_string())).collect()
}

#[test]
fn test_document_creation() {
    let doc = Document {
        id: Uuid::new_v4().to_string(),
        content: "Test document content".to_string(),
        metadata: meta(&[("source", "test")]),
    };
    assert!(!doc.id.is_empty());
    assert_eq!(doc.content, "Test document content");
    let source = doc.metadata.iter().find(|(k, _)| k == "source").map(|(_, v)| v);
    assert_eq!(source.unwrap(), "test");
}

#[test]
fn urls_accepted_and_trimmed() {
    let t = validate_url(&"http://localhost:8000/".to_string()).unwrap();
    assert_eq!(t, "http://localhost:8000");
    let t = validate_url(&"https://db.example.com".to_string()).unwrap();
    assert_eq!(t, "https://db.example.com");
}

#[test]
fn urls_with_other_schemes_are_rejected() {
    let r = validate_url(&"ftp://example.com".to_string());
    assert!(matches!(
        r,
        Err(StoreError::ConfigError { fault: ConfigFault::UnsupportedScheme })
    ));
}

#[test]
fn unparsable_urls_are_rejected() {
    let r = validate_url(&"not a url at all".to_string());
    assert!(matches!(
        r,
        Err(StoreError::ConfigError { fault: ConfigFault::UnparsableUrl })
    ));
}

#[test]
fn rejected_base_urls_fall_back_to_default() {
    assert_eq!(
        resolve_base_url(&"ftp://example.com".to_string()),
        "http://localhost:8000"
    );
    assert_eq!(
        resolve_base_url(&"http://db:9000///".to_string()),
        "http://db:9000"
    );
}

#[test]
fn trimming_removes_only_trailing_slashes() {
    assert_eq!(trim_trailing_slashes(&"a///".to_string()), "a");
    assert_eq!(trim_trailing_slashes(&"///".to_string()), "");
    assert_eq!(trim_trailing_slashes(&"a/b".to_string()), "a/b");
    assert_eq!(trim_trailing_slashes(&String::new()), "");
}

#[test]
fn endpoint_urls_follow_the_interface() {
    let base = "http://localhost:8000".to_string();
    let name = "documents".to_string();
    assert_eq!(heartbeat_url(&base), "http://localhost:8000/api/v2/heartbeat");
    assert_eq!(collections_url(&base), "http://localhost:8000/api/v2/collections");
    assert_eq!(
        collection_url(&base, &name),
        "http://localhost:8000/api/v2/collections/documents"
    );
    assert_eq!(
        add_documents_url(&base, &name),
        "http://localhost:8000/api/v2/collections/documents/add"
    );
    assert_eq!(
        query_url(&base, &name),
        "http://localhost:8000/api/v2/collections/documents/query"
    );
    assert_eq!(
        get_documents_url(&base, &name),
        "http://localhost:8000/api/v2/collections/documents/get"
    );
    assert_eq!(
        update_documents_url(&base, &name),
        "http://localhost:8000/api/v2/collections/documents/update"
    );
    assert_eq!(
        delete_documents_url(&base, &name),
        "http://localhost:8000/api/v2/collections/documents/delete"
    );
    assert_eq!(
        count_url(&base, &name),
        "http://localhost:8000/api/v2/collections/documents/count"
    );
}

#[test]
fn only_read_like_operations_retry() {
    assert!(GatewayOperation::HealthCheck.uses_retry());
    assert!(GatewayOperation::Query.uses_retry());
    assert!(GatewayOperation::GetDocuments.uses_retry());
    assert!(GatewayOperation::UpdateDocuments.uses_retry());
    assert!(!GatewayOperation::CreateCollection.uses_retry());
    assert!(!GatewayOperation::DeleteCollection.uses_retry());
    assert!(!GatewayOperation::AddDocuments.uses_retry());
    assert!(!GatewayOperation::DeleteDocuments.uses_retry());
    assert!(!GatewayOperation::Count.uses_retry());
}

#[test]
fn add_request_projects_documents_positionally() {
    let docs = vec![
        Document {
            id: "a".to_string(),
            content: "first".to_string(),
            metadata: meta(&[("k", "v")]),
        },
        Document {
            id: "b".to_string(),
            content: "second".to_string(),
            metadata: Vec::new(),
        },
    ];
    let embeddings = vec![vec![1, 2], vec![3, 4]];
    let req = build_add_request(docs, embeddings).unwrap();
    assert_eq!(req.ids, vec!["a".to_string(), "b".to_string()]);
    assert_eq!(req.documents, vec!["first".to_string(), "second".to_string()]);
    assert_eq!(req.metadatas, vec![meta(&[("k", "v")]), Vec::new()]);
    assert_eq!(req.embeddings, vec![vec![1, 2], vec![3, 4]]);
}

#[test]
fn misaligned_add_request_is_rejected() {
    let docs = vec![Document {
        id: "a".to_string(),
        content: "only".to_string(),
        metadata: Vec::new(),
    }];
    let r = build_add_request(docs, Vec::new());
    assert!(matches!(
        r,
        Err(StoreError::DimensionMismatch { expected: 1, found: 0 })
    ));
}

#[test]
fn query_and_get_requests_carry_their_fields() {
    let q = QueryRequest::new(vec![vec![1, 2, 3]], 5);
    assert_eq!(q.query_embeddings, vec![vec![1, 2, 3]]);
    assert_eq!(q.n_results, 5);
    let g = GetRequest::new(Some(vec!["a".to_string()]), Some(10));
    assert_eq!(g.ids, Some(vec!["a".to_string()]));
    assert_eq!(g.limit, Some(10));
}

#[test]
fn first_query_row_of_empty_response_is_empty() {
    let row = first_query_row(Vec::new(), None, None, None);
    assert!(row.ids.is_empty());
    assert!(row.documents.is_empty());
    assert!(row.distances.is_empty());
    assert!(row.metadatas.is_empty());
}

#[test]
fn first_query_row_takes_the_first_of_each_array() {
    let row = first_query_row(
        vec![vec!["a".to_string(), "b".to_string()], vec!["z".to_string()]],
        Some(vec![vec!["da".to_string(), "db".to_string()]]),
        Some(vec![vec![10, 20]]),
        None,
    );
    assert_eq!(row.ids, vec!["a".to_string(), "b".to_string()]);
    assert_eq!(row.documents, vec!["da".to_string(), "db".to_string()]);
    assert_eq!(row.distances, vec![10, 20]);
    assert!(row.metadatas.is_empty());
}
