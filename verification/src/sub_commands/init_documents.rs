//! The sample documents.

use crate::structures::{DocumentMetaData, MetaDataView};
use vstd::prelude::*;

verus! {

/// What the first sample says.
pub const ABOUT_RUST: &'static str =
    "Rust is a systems programming language that runs blazingly fast, prevents segfaults, and guarantees thread safety. It was originally developed by Mozilla and is now maintained by the Rust Foundation.";

/// What the second sample says.
pub const ABOUT_SURREALDB: &'static str =
    "SurrealDB is a scalable, distributed, collaborative, document-graph database for the serverless web. It combines the flexibility of JSON documents with the power of graph queries and real-time subscriptions.";

/// What the third sample says.
pub const ABOUT_OLLAMA: &'static str =
    "Ollama is an open-source tool that allows you to run large language models locally on your machine. It supports various models including Llama 2, Code Llama, and many others, making it easy to use AI without relying on cloud services.";

/// What the fourth sample says.
pub const ABOUT_VECTOR_DATABASES: &'static str =
    "Vector databases are specialized databases designed to store and query high-dimensional vectors efficiently. They are essential for semantic search, recommendation systems, and RAG applications.";

/// The sample documents: each is one chunk, the first of its source.
pub open spec fn samples() -> Seq<(Seq<char>, MetaDataView)> {
    seq![
        (ABOUT_RUST@, MetaDataView { index: 0, source: "moke1.txt "@ }),
        (ABOUT_SURREALDB@, MetaDataView { index: 0, source: "moke2.txt "@ }),
        (ABOUT_OLLAMA@, MetaDataView { index: 0, source: "moke3.txt "@ }),
        (ABOUT_VECTOR_DATABASES@, MetaDataView { index: 0, source: "moke4.txt "@ }),
    ]
}

/// The sample documents with which a knowledge base can be filled.
pub fn init_documents() -> (r: Vec<(String, DocumentMetaData)>)
    ensures
        r.deep_view() == samples(),
{
    let mut out: Vec<(String, DocumentMetaData)> = Vec::new();
    out.push(
        (ABOUT_RUST.to_string(), DocumentMetaData { index: 0, source: "moke1.txt ".to_string() }),
    );
    out.push(
        (
            ABOUT_SURREALDB.to_string(),
            DocumentMetaData { index: 0, source: "moke2.txt ".to_string() },
        ),
    );
    out.push(
        (ABOUT_OLLAMA.to_string(), DocumentMetaData { index: 0, source: "moke3.txt ".to_string() }),
    );
    out.push(
        (
            ABOUT_VECTOR_DATABASES.to_string(),
            DocumentMetaData { index: 0, source: "moke4.txt ".to_string() },
        ),
    );
    assert(out.deep_view() =~= samples());
    out
}

} // verus!
