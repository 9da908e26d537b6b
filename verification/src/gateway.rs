//! The database gateway's pure logic: base-URL validation, endpoint paths,
//! well-formed request building, the retry eligibility of each operation,
//! and the extraction of the first result row from a query response.
//!
//! The gateway never talks to the network itself: the surrounding
//! application sends what is built here and hands responses back as plain
//! values.

use vstd::prelude::*;
use vstd::string::*;
use crate::error::{ConfigFault, StoreError};

verus! {

/// A document as handed to the document database: content plus caller
/// metadata under an opaque identifier.
#[derive(Clone)]
pub struct Document {
    /// Opaque unique identifier.
    pub id: String,
    /// The text payload.
    pub content: String,
    /// String-to-string metadata pairs.
    pub metadata: Vec<(String, String)>,
}

/// The mathematical value of a [`Document`].
pub struct DocumentView {
    /// The identifier's characters.
    pub id: Seq<char>,
    /// The content's characters.
    pub content: Seq<char>,
    /// The metadata pairs.
    pub metadata: Seq<(Seq<char>, Seq<char>)>,
}

impl View for Document {
    type V = DocumentView;

    open spec fn view(&self) -> DocumentView {
        DocumentView { id: self.id@, content: self.content@, metadata: self.metadata.deep_view() }
    }
}

impl DeepView for Document {
    type V = DocumentView;

    open spec fn deep_view(&self) -> DocumentView {
        self.view()
    }
}

/// `s` with every trailing `/` removed.
pub open spec fn spec_trim_slashes(s: Seq<char>) -> Seq<char>
    decreases s.len(),
{
    if s.len() > 0 && s.last() == '/' {
        spec_trim_slashes(s.drop_last())
    } else {
        s
    }
}

/// Remove every trailing `/` from `s`.
pub fn trim_trailing_slashes(s: &String) -> (r: String)
    ensures
        r@ == spec_trim_slashes(s@),
{
    let n = s.as_str().unicode_len();
    let mut end: usize = n;
    proof {
        assert(s@.take(n as int) =~= s@);
    }
    while end > 0 && s.as_str().get_char(end - 1) == '/'
        invariant
            0 <= end <= n,
            n == s@.len(),
            spec_trim_slashes(s@) == spec_trim_slashes(s@.take(end as int)),
        decreases end,
    {
        proof {
            assert(s@.take(end as int).last() == s@[end - 1]);
            assert(s@.take(end as int).drop_last() =~= s@.take(end - 1));
        }
        end = end - 1;
    }
    let t = s.as_str().substring_char(0, end);
    proof {
        assert(t@ == s@.subrange(0, end as int));
        assert(s@.subrange(0, end as int) =~= s@.take(end as int));
        if end > 0 {
            assert(s@.take(end as int).last() != '/');
        }
    }
    String::from_str(t)
}

/// What `url::Url::parse` finds as the scheme of a string: the lower-cased
/// scheme component where the string parses as an absolute URL, nothing
/// where it does not.
pub uninterp spec fn url_scheme(s: Seq<char>) -> Option<Seq<char>>;

/// Relies on `url::Url::parse` and `url::Url::scheme`: whether a string
/// parses as an absolute URL, and which scheme it carries, are functions of
/// the string alone, and `scheme()` returns the lower-cased scheme without
/// its `:` delimiter.
#[verifier::external_body]
fn parse_url_scheme(s: &str) -> (r: Option<String>)
    ensures
        match r {
            Some(sch) => url_scheme(s@) == Some(sch@),
            None => url_scheme(s@) is None,
        },
{
    match url::Url::parse(s) {
        Ok(u) => Some(u.scheme().to_string()),
        Err(_) => None,
    }
}

/// The scheme is one the gateway supports: `http` or `https`.
pub open spec fn spec_supported_scheme(o: Option<Seq<char>>) -> bool {
    o == Some("http"@) || o == Some("https"@)
}

/// Validate a base URL: it must parse as an absolute URL with scheme `http`
/// or `https`, and comes back with trailing slashes removed.
///
/// Fails with `ConfigError { UnparsableUrl }` exactly when the string does
/// not parse, and with `ConfigError { UnsupportedScheme }` exactly when it
/// parses under another scheme.
pub fn validate_url(url: &String) -> (r: Result<String, StoreError>)
    ensures
        match r {
            Ok(t) => spec_supported_scheme(url_scheme(url@)) && t@ == spec_trim_slashes(url@),
            Err(e) => match e {
                StoreError::ConfigError { fault } => {
                    &&& !spec_supported_scheme(url_scheme(url@))
                    &&& fault == (if url_scheme(url@) is None {
                        ConfigFault::UnparsableUrl
                    } else {
                        ConfigFault::UnsupportedScheme
                    })
                },
                _ => false,
            },
        },
{
    match parse_url_scheme(url.as_str()) {
        None => Err(StoreError::ConfigError { fault: ConfigFault::UnparsableUrl }),
        Some(sch) => {
            let http = String::from_str("http");
            let https = String::from_str("https");
            if sch == http || sch == https {
                Ok(trim_trailing_slashes(url))
            } else {
                Err(StoreError::ConfigError { fault: ConfigFault::UnsupportedScheme })
            }
        },
    }
}

/// The base URL the gateway falls back to when the configured one is
/// rejected.
pub fn default_base_url() -> (r: String)
    ensures
        r@ == "http://localhost:8000"@,
{
    String::from_str("http://localhost:8000")
}

/// Resolve a configured base URL: the validated, trimmed URL where it is
/// acceptable, the default base URL otherwise.
pub fn resolve_base_url(url: &String) -> (r: String)
    ensures
        spec_supported_scheme(url_scheme(url@)) ==> r@ == spec_trim_slashes(url@),
        !spec_supported_scheme(url_scheme(url@)) ==> r@ == "http://localhost:8000"@,
{
    match validate_url(url) {
        Ok(t) => t,
        Err(_) => default_base_url(),
    }
}

/// The health endpoint.
pub fn heartbeat_url(base: &String) -> (r: String)
    ensures
        r@ == base@ + "/api/v2/heartbeat"@,
{
    let mut out = base.clone();
    out.append("/api/v2/heartbeat");
    out
}

/// The collection-creation endpoint.
pub fn collections_url(base: &String) -> (r: String)
    ensures
        r@ == base@ + "/api/v2/collections"@,
{
    let mut out = base.clone();
    out.append("/api/v2/collections");
    out
}

/// The endpoint of one named collection.
pub fn collection_url(base: &String, name: &String) -> (r: String)
    ensures
        r@ == base@ + "/api/v2/collections/"@ + name@,
{
    let mut out = base.clone();
    out.append("/api/v2/collections/");
    out.append(name.as_str());
    out
}

/// The endpoint of one action on a named collection.
pub fn collection_action_url(base: &String, name: &String, action: &str) -> (r: String)
    ensures
        r@ == base@ + "/api/v2/collections/"@ + name@ + action@,
{
    let mut out = collection_url(base, name);
    out.append(action);
    out
}

/// The document-addition endpoint of a collection.
pub fn add_documents_url(base: &String, name: &String) -> (r: String)
    ensures
        r@ == base@ + "/api/v2/collections/"@ + name@ + "/add"@,
{
    collection_action_url(base, name, "/add")
}

/// The query endpoint of a collection.
pub fn query_url(base: &String, name: &String) -> (r: String)
    ensures
        r@ == base@ + "/api/v2/collections/"@ + name@ + "/query"@,
{
    collection_action_url(base, name, "/query")
}

/// The document-retrieval endpoint of a collection.
pub fn get_documents_url(base: &String, name: &String) -> (r: String)
    ensures
        r@ == base@ + "/api/v2/collections/"@ + name@ + "/get"@,
{
    collection_action_url(base, name, "/get")
}

/// The document-update endpoint of a collection.
pub fn update_documents_url(base: &String, name: &String) -> (r: String)
    ensures
        r@ == base@ + "/api/v2/collections/"@ + name@ + "/update"@,
{
    collection_action_url(base, name, "/update")
}

/// The document-deletion endpoint of a collection.
pub fn delete_documents_url(base: &String, name: &String) -> (r: String)
    ensures
        r@ == base@ + "/api/v2/collections/"@ + name@ + "/delete"@,
{
    collection_action_url(base, name, "/delete")
}

/// The document-count endpoint of a collection.
pub fn count_url(base: &String, name: &String) -> (r: String)
    ensures
        r@ == base@ + "/api/v2/collections/"@ + name@ + "/count"@,
{
    collection_action_url(base, name, "/count")
}

/// The operations the gateway issues.
#[derive(Clone, Copy, Debug, PartialEq, Eq, Structural)]
pub enum GatewayOperation {
    /// `GET` of the health endpoint.
    HealthCheck,
    /// `POST` creating a collection.
    CreateCollection,
    /// `DELETE` of a collection.
    DeleteCollection,
    /// `POST` adding documents to a collection.
    AddDocuments,
    /// `POST` querying a collection by embedding.
    Query,
    /// `POST` retrieving documents by id or filter.
    GetDocuments,
    /// `POST` updating documents in place.
    UpdateDocuments,
    /// `POST` deleting documents by id.
    DeleteDocuments,
    /// `GET` of a collection's document count.
    Count,
}

/// Which operations go through the retry governor: the read-like ones —
/// health check, query, get, update — where re-issuing under an ambiguous
/// failure is safe. Collection lifecycle and document writes are issued
/// once.
pub open spec fn spec_uses_retry(op: GatewayOperation) -> bool {
    match op {
        GatewayOperation::HealthCheck => true,
        GatewayOperation::Query => true,
        GatewayOperation::GetDocuments => true,
        GatewayOperation::UpdateDocuments => true,
        _ => false,
    }
}

impl GatewayOperation {
    /// Whether this operation goes through the retry governor.
    pub fn uses_retry(&self) -> (b: bool)
        ensures
            b == spec_uses_retry(*self),
    {
        match *self {
            GatewayOperation::HealthCheck => true,
            GatewayOperation::Query => true,
            GatewayOperation::GetDocuments => true,
            GatewayOperation::UpdateDocuments => true,
            _ => false,
        }
    }
}

/// A well-formed document-addition (or update) request: four positionally
/// aligned arrays of equal length.
pub struct AddRequest {
    /// The documents' identifiers.
    pub ids: Vec<String>,
    /// The documents' embeddings.
    pub embeddings: Vec<Vec<i64>>,
    /// The documents' metadata.
    pub metadatas: Vec<Vec<(String, String)>>,
    /// The documents' text payloads.
    pub documents: Vec<String>,
}

/// Build a well-formed [`AddRequest`] from documents and their embeddings.
///
/// Fails with `DimensionMismatch` — a caller bug — exactly when the two
/// lists disagree in length, since a misaligned request would corrupt the
/// database's positional pairing; otherwise every array of the request lists
/// the documents' fields in input order.
pub fn build_add_request(documents: Vec<Document>, embeddings: Vec<Vec<i64>>) -> (r: Result<
    AddRequest,
    StoreError,
>)
    ensures
        match r {
            Ok(req) => {
                &&& documents@.len() == embeddings@.len()
                &&& req.ids.deep_view() == documents.deep_view().map_values(
                    |d: DocumentView| d.id,
                )
                &&& req.documents.deep_view() == documents.deep_view().map_values(
                    |d: DocumentView| d.content,
                )
                &&& req.metadatas.deep_view() == documents.deep_view().map_values(
                    |d: DocumentView| d.metadata,
                )
                &&& req.embeddings.deep_view() == embeddings.deep_view()
            },
            Err(e) => documents@.len() != embeddings@.len() && e == (StoreError::DimensionMismatch {
                expected: documents@.len() as usize,
                found: embeddings@.len() as usize,
            }),
        },
{
    if documents.len() != embeddings.len() {
        return Err(
            StoreError::DimensionMismatch { expected: documents.len(), found: embeddings.len() },
        );
    }
    let ghost dv = documents.deep_view();
    let n = documents.len();
    let mut remaining = documents;
    let mut ids: Vec<String> = Vec::new();
    let mut contents: Vec<String> = Vec::new();
    let mut metadatas: Vec<Vec<(String, String)>> = Vec::new();
    let mut i: usize = 0;
    while i < n
        invariant
            0 <= i <= n,
            n == dv.len(),
            remaining@.len() == n - i,
            forall|j: int| 0 <= j < remaining@.len() ==> #[trigger] remaining@[j].deep_view()
                == dv[j + i as int],
            ids.deep_view() =~= dv.take(i as int).map_values(|d: DocumentView| d.id),
            contents.deep_view() =~= dv.take(i as int).map_values(|d: DocumentView| d.content),
            metadatas.deep_view() =~= dv.take(i as int).map_values(|d: DocumentView| d.metadata),
        decreases n - i,
    {
        let d = remaining.remove(0);
        let ghost dview = d.deep_view();
        let Document { id, content, metadata } = d;
        proof {
            assert(dview == dv[i as int]);
            assert(id@ == dview.id && content@ == dview.content && metadata.deep_view()
                == dview.metadata);
        }
        let ghost ids_before = ids.deep_view();
        let ghost contents_before = contents.deep_view();
        let ghost metadatas_before = metadatas.deep_view();
        ids.push(id);
        contents.push(content);
        metadatas.push(metadata);
        proof {
            assert(ids.deep_view() =~= ids_before.push(dview.id));
            assert(contents.deep_view() =~= contents_before.push(dview.content));
            assert(metadatas.deep_view() =~= metadatas_before.push(dview.metadata));
            assert(ids.deep_view() =~= dv.take(i + 1).map_values(|dd: DocumentView| dd.id));
            assert(contents.deep_view() =~= dv.take(i + 1).map_values(
                |dd: DocumentView| dd.content,
            ));
            assert(metadatas.deep_view() =~= dv.take(i + 1).map_values(
                |dd: DocumentView| dd.metadata,
            ));
        }
        i = i + 1;
    }
    proof {
        assert(dv.take(n as int) =~= dv);
    }
    Ok(AddRequest { ids, embeddings, metadatas, documents: contents })
}

/// A well-formed query request: the embeddings to match and how many results
/// to return per embedding.
pub struct QueryRequest {
    /// One query embedding per requested ranking.
    pub query_embeddings: Vec<Vec<i64>>,
    /// How many results to return per query embedding.
    pub n_results: u32,
}

impl QueryRequest {
    /// Build a query request.
    pub fn new(query_embeddings: Vec<Vec<i64>>, n_results: u32) -> (r: QueryRequest)
        ensures
            r.query_embeddings.deep_view() == query_embeddings.deep_view(),
            r.n_results == n_results,
    {
        QueryRequest { query_embeddings, n_results }
    }
}

/// A well-formed document-retrieval request: optional ids and an optional
/// result limit. An absent field is omitted from the issued request.
pub struct GetRequest {
    /// Retrieve only these identifiers, if present.
    pub ids: Option<Vec<String>>,
    /// Retrieve at most this many documents, if present.
    pub limit: Option<u32>,
}

impl GetRequest {
    /// Build a retrieval request.
    pub fn new(ids: Option<Vec<String>>, limit: Option<u32>) -> (r: GetRequest)
        ensures
            r.ids.deep_view() == ids.deep_view(),
            r.limit == limit,
    {
        GetRequest { ids, limit }
    }
}

/// The first row of a query response, each array defaulting to empty where
/// the database omitted it.
pub struct QueryRow {
    /// The matched identifiers, best first.
    pub ids: Vec<String>,
    /// The matched documents' text payloads.
    pub documents: Vec<String>,
    /// The matches' distances, as fixed-point values.
    pub distances: Vec<i64>,
    /// The matches' metadata.
    pub metadatas: Vec<Vec<(String, String)>>,
}

/// Extract the first row of a query response — the results for the first
/// query embedding submitted — with every absent or empty array replaced by
/// an empty one.
pub fn first_query_row(
    ids: Vec<Vec<String>>,
    documents: Option<Vec<Vec<String>>>,
    distances: Option<Vec<Vec<i64>>>,
    metadatas: Option<Vec<Vec<Vec<(String, String)>>>>,
) -> (row: QueryRow)
    ensures
        ids@.len() == 0 ==> row.ids@.len() == 0 && row.documents@.len() == 0
            && row.distances@.len() == 0 && row.metadatas@.len() == 0,
        ids@.len() > 0 ==> {
            &&& row.ids.deep_view() == ids.deep_view()[0]
            &&& row.documents.deep_view() == (match documents.deep_view() {
                Some(d) => if d.len() > 0 {
                    d[0]
                } else {
                    Seq::empty()
                },
                None => Seq::empty(),
            })
            &&& row.distances.deep_view() == (match distances.deep_view() {
                Some(d) => if d.len() > 0 {
                    d[0]
                } else {
                    Seq::empty()
                },
                None => Seq::empty(),
            })
            &&& row.metadatas.deep_view() == (match metadatas.deep_view() {
                Some(d) => if d.len() > 0 {
                    d[0]
                } else {
                    Seq::empty()
                },
                None => Seq::empty(),
            })
        },
{
    let mut ids = ids;
    if ids.len() == 0 {
        return QueryRow {
            ids: Vec::new(),
            documents: Vec::new(),
            distances: Vec::new(),
            metadatas: Vec::new(),
        };
    }
    let first_ids = ids.remove(0);
    let first_documents = match documents {
        Some(mut d) => if d.len() > 0 {
            d.remove(0)
        } else {
            Vec::new()
        },
        None => Vec::new(),
    };
    let first_distances = match distances {
        Some(mut d) => if d.len() > 0 {
            d.remove(0)
        } else {
            Vec::new()
        },
        None => Vec::new(),
    };
    let first_metadatas = match metadatas {
        Some(mut d) => if d.len() > 0 {
            d.remove(0)
        } else {
            Vec::new()
        },
        None => Vec::new(),
    };
    QueryRow {
        ids: first_ids,
        documents: first_documents,
        distances: first_distances,
        metadatas: first_metadatas,
    }
}

} // verus!
