//! The vector store: an append-ordered collection of documents with
//! fixed-dimension embeddings, ranked by the similarity engine.
//!
//! A store is created empty with a dimension and a model tag; documents are
//! appended one at a time or in bulk, and every appended embedding must have
//! exactly the declared dimension. Ranking rescans the whole collection on
//! every query — exact brute-force search, no index.

use vstd::prelude::*;
use crate::error::StoreError;
use crate::similarity::{
    admissible_candidates, bounded, rank, spec_rank, MAX_DIMENSION,
};

verus! {

/// A document held by the store: content, its embedding, caller metadata and
/// the insertion timestamp.
pub struct StoredDocument {
    /// Opaque identifier, unique within a store under normal use.
    pub id: String,
    /// The text payload.
    pub content: String,
    /// The fixed-point embedding; its length must equal the store's dimension.
    pub embedding: Vec<i64>,
    /// String-to-string metadata pairs, keys unique per document.
    pub metadata: Vec<(String, String)>,
    /// Seconds since an epoch of the caller's choice; set once at insertion.
    pub created_at: u64,
}

/// The mathematical value of a [`StoredDocument`].
pub struct StoredDocumentView {
    /// The identifier's characters.
    pub id: Seq<char>,
    /// The content's characters.
    pub content: Seq<char>,
    /// The embedding components.
    pub embedding: Seq<i64>,
    /// The metadata pairs.
    pub metadata: Seq<(Seq<char>, Seq<char>)>,
    /// The insertion timestamp.
    pub created_at: u64,
}

impl View for StoredDocument {
    type V = StoredDocumentView;

    open spec fn view(&self) -> StoredDocumentView {
        StoredDocumentView {
            id: self.id@,
            content: self.content@,
            embedding: self.embedding@,
            metadata: self.metadata.deep_view(),
            created_at: self.created_at,
        }
    }
}

impl DeepView for StoredDocument {
    type V = StoredDocumentView;

    open spec fn deep_view(&self) -> StoredDocumentView {
        self.view()
    }
}

/// The mathematical value of a [`VectorStore`].
pub struct VectorStoreView {
    /// The documents, in insertion order.
    pub documents: Seq<StoredDocumentView>,
    /// The declared embedding dimension.
    pub dimension: int,
    /// The tag of the model that produced the embeddings.
    pub model_name: Seq<char>,
}

impl VectorStoreView {
    /// The embeddings of the documents, in insertion order.
    pub open spec fn embeddings(self) -> Seq<Seq<i64>> {
        self.documents.map_values(|d: StoredDocumentView| d.embedding)
    }

    /// Every document's embedding has the declared dimension and bounded
    /// components, and the dimension itself is positive and admissible.
    pub open spec fn wf(self) -> bool {
        &&& 0 < self.dimension <= MAX_DIMENSION as int
        &&& forall|i: int| 0 <= i < self.documents.len() ==> (
            #[trigger] self.documents[i].embedding).len() == self.dimension && bounded(
            self.documents[i].embedding,
        )
    }
}

/// An append-ordered collection of documents with a fixed embedding
/// dimension, searchable by cosine similarity.
///
/// A store instance assumes a single writer: concurrent mutation from several
/// tasks needs an external mutual-exclusion wrapper.
pub struct VectorStore {
    documents: Vec<StoredDocument>,
    dimension: usize,
    model_name: String,
}

impl View for VectorStore {
    type V = VectorStoreView;

    closed spec fn view(&self) -> VectorStoreView {
        VectorStoreView {
            documents: self.documents.deep_view(),
            dimension: self.dimension as int,
            model_name: self.model_name@,
        }
    }
}

impl VectorStore {
    /// The store's value is well-formed: see [`VectorStoreView::wf`].
    pub open spec fn wf(&self) -> bool {
        self@.wf()
    }

    /// Create an empty store with the given dimension and model tag.
    ///
    /// Fails with `ConfigError` exactly when `dimension` is zero.
    pub fn create(dimension: usize, model_name: String) -> (r: Result<VectorStore, StoreError>)
        requires
            dimension <= MAX_DIMENSION,
        ensures
            match r {
                Ok(st) => dimension > 0 && st.wf() && st@.documents.len() == 0 && st@.dimension
                    == dimension as int && st@.model_name == model_name@,
                Err(e) => dimension == 0 && e == (StoreError::ConfigError {
                    fault: crate::error::ConfigFault::ZeroDimension,
                }),
            },
    {
        if dimension == 0 {
            return Err(StoreError::ConfigError { fault: crate::error::ConfigFault::ZeroDimension });
        }
        let st = VectorStore { documents: Vec::new(), dimension, model_name };
        assert(st@.documents =~= Seq::<StoredDocumentView>::empty());
        Ok(st)
    }

    /// The declared embedding dimension.
    pub fn dimension(&self) -> (d: usize)
        ensures
            d as int == self@.dimension,
    {
        self.dimension
    }

    /// The tag of the model that produced the embeddings.
    pub fn model_name(&self) -> (m: &String)
        ensures
            m@ == self@.model_name,
    {
        &self.model_name
    }

    /// How many documents the store holds.
    pub fn len(&self) -> (n: usize)
        ensures
            n as int == self@.documents.len(),
    {
        self.documents.len()
    }

    /// The document at `index`, in insertion order.
    pub fn document(&self, index: usize) -> (d: &StoredDocument)
        requires
            index < self@.documents.len(),
        ensures
            d@ == self@.documents[index as int],
    {
        &self.documents[index]
    }

    /// Append one document.
    ///
    /// Fails with `DimensionMismatch` exactly when the document's embedding
    /// length is not the store's dimension, and then leaves the store
    /// unchanged; otherwise appends the document at the end.
    pub fn add(&mut self, doc: StoredDocument) -> (r: Result<(), StoreError>)
        requires
            old(self).wf(),
            bounded(doc.embedding@),
        ensures
            final(self).wf(),
            final(self)@.dimension == old(self)@.dimension,
            final(self)@.model_name == old(self)@.model_name,
            match r {
                Ok(()) => doc.embedding@.len() == old(self)@.dimension && final(self)@.documents
                    == old(self)@.documents.push(doc@),
                Err(e) => {
                    &&& doc.embedding@.len() != old(self)@.dimension
                    &&& e == (StoreError::DimensionMismatch {
                        expected: old(self)@.dimension as usize,
                        found: doc.embedding@.len() as usize,
                    })
                    &&& final(self)@ == old(self)@
                },
            },
    {
        if doc.embedding.len() != self.dimension {
            return Err(
                StoreError::DimensionMismatch {
                    expected: self.dimension,
                    found: doc.embedding.len(),
                },
            );
        }
        let ghost before = self.documents.deep_view();
        let ghost docv = doc@;
        self.documents.push(doc);
        proof {
            assert(self.documents.deep_view() =~= before.push(docv));
            let newdocs = self@.documents;
            assert forall|i: int| 0 <= i < newdocs.len() implies (#[trigger] newdocs[i]).embedding.len()
                == self@.dimension && bounded(newdocs[i].embedding) by {
                if i < newdocs.len() - 1 {
                    assert(newdocs[i] == old(self)@.documents[i]);
                } else {
                    assert(newdocs[i] == docv);
                }
            }
        }
        Ok(())
    }

    /// Append several documents, in order.
    ///
    /// Succeeds exactly when every embedding has the store's dimension, and
    /// then appends them all. Otherwise it stops at the first mismatch: the
    /// error is that document's `DimensionMismatch`, and the documents before
    /// it stay appended.
    pub fn add_all(&mut self, docs: Vec<StoredDocument>) -> (r: Result<(), StoreError>)
        requires
            old(self).wf(),
            forall|i: int| 0 <= i < docs@.len() ==> bounded(
                (#[trigger] docs@[i]).embedding@,
            ),
        ensures
            final(self).wf(),
            final(self)@.dimension == old(self)@.dimension,
            final(self)@.model_name == old(self)@.model_name,
            match r {
                Ok(()) => {
                    &&& forall|i: int| 0 <= i < docs.deep_view().len() ==> (
                    #[trigger] docs.deep_view()[i]).embedding.len() == old(self)@.dimension
                    &&& final(self)@.documents == old(self)@.documents + docs.deep_view()
                },
                Err(e) => (exists|i: int|
                    {
                        &&& 0 <= i < docs.deep_view().len()
                        &&& (forall|j: int|
                            0 <= j < i ==> (#[trigger] docs.deep_view()[j]).embedding.len() == old(
                                self,
                            )@.dimension)
                        &&& (#[trigger] docs.deep_view()[i]).embedding.len() != old(self)@.dimension
                        &&& e == (StoreError::DimensionMismatch {
                            expected: old(self)@.dimension as usize,
                            found: docs.deep_view()[i].embedding.len() as usize,
                        })
                        &&& final(self)@.documents == old(self)@.documents + docs.deep_view().take(
                            i,
                        )
                    }),
            },
    {
        let ghost dv = docs.deep_view();
        let mut remaining = docs;
        let mut taken: usize = 0;
        let n = remaining.len();
        while taken < n
            invariant
                dv == docs.deep_view(),
                0 <= taken <= n,
                remaining@.len() == n - taken,
                dv.len() == n as int,
                forall|i: int| 0 <= i < remaining@.len() ==> #[trigger] remaining@[i].deep_view()
                    == dv[i + taken as int],
                forall|i: int| 0 <= i < remaining@.len() ==> bounded(
                    (#[trigger] remaining@[i]).embedding@,
                ),
                self.wf(),
                self@.dimension == old(self)@.dimension,
                self@.model_name == old(self)@.model_name,
                self@.documents == old(self)@.documents + dv.take(taken as int),
                forall|i: int| 0 <= i < taken as int ==> (#[trigger] dv[i]).embedding.len() == old(
                    self,
                )@.dimension,
            decreases n - taken,
        {
            let doc = remaining.remove(0);
            let ghost docv = doc.deep_view();
            match self.add(doc) {
                Ok(()) => {
                    proof {
                        assert(docv == dv[taken as int]);
                        assert(old(self)@.documents + dv.take(taken as int + 1) =~= (old(
                            self,
                        )@.documents + dv.take(taken as int)).push(docv));
                    }
                    taken = taken + 1;
                },
                Err(e) => {
                    proof {
                        assert(docv == dv[taken as int]);
                        assert(dv[taken as int].embedding.len() != old(self)@.dimension);
                        assert(e == (StoreError::DimensionMismatch {
                            expected: old(self)@.dimension as usize,
                            found: dv[taken as int].embedding.len() as usize,
                        }));
                        assert(self@.documents == old(self)@.documents + dv.take(taken as int));
                    }
                    return Err(e);
                },
            }
        }
        proof {
            assert(dv.take(n as int) =~= dv);
        }
        Ok(())
    }

    /// Build a store from a dimension, a model tag and a document sequence:
    /// the whole-store replacement path, used when a persisted store is
    /// reloaded.
    ///
    /// Fails with `ConfigError` exactly when `dimension` is zero, and with
    /// the first mismatching document's `DimensionMismatch` exactly when some
    /// document's embedding length is not `dimension`.
    pub fn from_parts(dimension: usize, model_name: String, documents: Vec<StoredDocument>) -> (r:
        Result<VectorStore, StoreError>)
        requires
            dimension <= MAX_DIMENSION,
            forall|i: int| 0 <= i < documents@.len() ==> bounded(
                (#[trigger] documents@[i]).embedding@,
            ),
        ensures
            match r {
                Ok(st) => {
                    &&& dimension > 0
                    &&& forall|i: int| 0 <= i < documents.deep_view().len() ==> (
                    #[trigger] documents.deep_view()[i]).embedding.len() == dimension as int
                    &&& st.wf()
                    &&& st@ == (VectorStoreView {
                        documents: documents.deep_view(),
                        dimension: dimension as int,
                        model_name: model_name@,
                    })
                },
                Err(e) => match e {
                    StoreError::ConfigError { fault } => dimension == 0 && fault
                        == crate::error::ConfigFault::ZeroDimension,
                    StoreError::DimensionMismatch { expected, found } => {
                        &&& dimension > 0
                        &&& expected == dimension
                        &&& (exists|i: int|
                            {
                                &&& 0 <= i < documents.deep_view().len()
                                &&& (forall|j: int|
                                    0 <= j < i ==> (
                                    #[trigger] documents.deep_view()[j]).embedding.len()
                                        == dimension as int)
                                &&& (#[trigger] documents.deep_view()[i]).embedding.len()
                                    != dimension as int
                                &&& found == documents.deep_view()[i].embedding.len()
                            })
                    },
                    _ => false,
                },
            },
    {
        if dimension == 0 {
            return Err(StoreError::ConfigError { fault: crate::error::ConfigFault::ZeroDimension });
        }
        let ghost dv = documents.deep_view();
        let n = documents.len();
        let mut i: usize = 0;
        while i < n
            invariant
                0 <= i <= n,
                n == documents@.len(),
                dv == documents.deep_view(),
                0 < dimension <= MAX_DIMENSION,
                forall|j: int| 0 <= j < i as int ==> (#[trigger] dv[j]).embedding.len()
                    == dimension as int,
            decreases n - i,
        {
            if documents[i].embedding.len() != dimension {
                proof {
                    assert((documents.deep_view()[i as int]).embedding.len() != dimension as int);
                    assert(forall|j: int| 0 <= j < i as int ==> (
                    #[trigger] documents.deep_view()[j]).embedding.len() == dimension as int);
                    assert(documents.deep_view()[i as int].embedding.len() == documents@[
                        i as int
                    ].embedding@.len());
                }
                return Err(
                    StoreError::DimensionMismatch {
                        expected: dimension,
                        found: documents[i].embedding.len(),
                    },
                );
            }
            i = i + 1;
        }
        let st = VectorStore { documents, dimension, model_name };
        Ok(st)
    }

    /// Rank all documents against `query` and return the best `k` as
    /// `(score, index)` pairs — see [`spec_rank`].
    ///
    /// Fails with `DimensionMismatch` exactly when the query's length is not
    /// the store's dimension.
    pub fn search(&self, query: &Vec<i64>, k: usize) -> (r: Result<
        Vec<(i128, usize)>,
        StoreError,
    >)
        requires
            self.wf(),
            bounded(query@),
        ensures
            match r {
                Ok(hits) => {
                    &&& query@.len() == self@.dimension
                    &&& hits@ == spec_rank(self@.embeddings(), query@, k as int)
                    &&& hits@.len() == vstd::math::min(k as int, self@.documents.len() as int)
                },
                Err(e) => {
                    &&& query@.len() != self@.dimension
                    &&& e == (StoreError::DimensionMismatch {
                        expected: self@.dimension as usize,
                        found: query@.len() as usize,
                    })
                },
            },
    {
        if query.len() != self.dimension {
            return Err(
                StoreError::DimensionMismatch { expected: self.dimension, found: query.len() },
            );
        }
        let n = self.documents.len();
        let mut embeddings: Vec<Vec<i64>> = Vec::new();
        let mut i: usize = 0;
        while i < n
            invariant
                0 <= i <= n,
                n == self@.documents.len(),
                self.wf(),
                embeddings@.len() == i as int,
                forall|j: int| 0 <= j < i as int ==> #[trigger] embeddings@[j]@
                    == self@.documents[j].embedding,
            decreases n - i,
        {
            let e = self.documents[i].embedding.clone();
            assert(e@ == self@.documents[i as int].embedding);
            embeddings.push(e);
            i = i + 1;
        }
        proof {
            assert(embeddings.deep_view() =~~= self@.embeddings());
            assert(admissible_candidates(embeddings.deep_view(), query@.len() as int));
        }
        let hits = rank(query, &embeddings, k);
        Ok(hits)
    }
}

} // verus!
