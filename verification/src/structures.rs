//! The records of the knowledge base and the payloads of the model service.
//!
//! A `Document` is one chunk of a source with its embedding. Embedding
//! components are held as the bit patterns of single-precision numbers,
//! so that a record can be carried, compared and copied exactly.

use vstd::prelude::*;

verus! {

/// What `DocumentMetaData` stands for in contracts.
pub struct MetaDataView {
    pub index: nat,
    pub source: Seq<char>,
}

/// What `Document` stands for in contracts.
pub struct DocumentView {
    pub id: Seq<char>,
    pub content: Seq<char>,
    pub metadata: MetaDataView,
    pub embedding: Seq<u32>,
    pub created_at: Seq<char>,
}

/// Where a chunk comes from: its place in the source, counted from zero,
/// and the name of the source.
#[derive(Debug)]
pub struct DocumentMetaData {
    pub index: usize,
    pub source: String,
}

impl View for DocumentMetaData {
    type V = MetaDataView;

    open spec fn view(&self) -> MetaDataView {
        MetaDataView { index: self.index as nat, source: self.source@ }
    }
}

impl DeepView for DocumentMetaData {
    type V = MetaDataView;

    open spec fn deep_view(&self) -> MetaDataView {
        self@
    }
}

impl Clone for DocumentMetaData {
    fn clone(&self) -> (r: Self)
        ensures
            r@ == self@,
    {
        DocumentMetaData { index: self.index, source: self.source.clone() }
    }
}

/// A stored chunk: its key, its text, where it comes from, its embedding
/// and the time of its creation as an RFC 3339 string.
#[derive(Debug)]
pub struct Document {
    pub id: String,
    pub content: String,
    pub metadata: DocumentMetaData,
    pub embedding: Vec<u32>,
    pub created_at: String,
}

impl View for Document {
    type V = DocumentView;

    open spec fn view(&self) -> DocumentView {
        DocumentView {
            id: self.id@,
            content: self.content@,
            metadata: self.metadata@,
            embedding: self.embedding@,
            created_at: self.created_at@,
        }
    }
}

impl DeepView for Document {
    type V = DocumentView;

    open spec fn deep_view(&self) -> DocumentView {
        self@
    }
}

impl Clone for Document {
    fn clone(&self) -> (r: Self)
        ensures
            r@ == self@,
    {
        let embedding = self.embedding.clone();
        assert(embedding@ =~= self.embedding@);
        Document {
            id: self.id.clone(),
            content: self.content.clone(),
            metadata: self.metadata.clone(),
            embedding,
            created_at: self.created_at.clone(),
        }
    }
}

/// The payload of an embedding reply.
#[derive(Debug)]
pub struct OllamaEmbeddingResponse {
    pub embedding: Vec<u32>,
}

/// The payload of a generation reply.
#[derive(Debug)]
pub struct OllamaGenerationResponse {
    pub response: String,
}

} // verus!
