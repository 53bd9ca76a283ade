//! Retrieval-augmented generation: text cleaning, chunking, record keeping,
//! similarity ranking and prompt assembly, with verified contracts.

pub mod chunk_processor;
pub mod chunker;
pub mod cli;
pub mod config;
pub mod error;
pub mod rag_system;
pub mod ranking;
pub mod stamps;
pub mod store;
pub mod structures;
pub mod sub_commands;
pub mod text;
pub mod util;

pub use chunk_processor::{
    _ensure_valid_utf8, _sanitize_chunk, _sanitize_chunk_advanced, _sanitize_chunk_cow,
    sanitize_chunk_comprehensive,
};
pub use cli::Cli;
pub use config::Configuration;
pub use error::RagError;
pub use rag_system::RagSystem;
pub use sub_commands::{
    documents_from_pages, info, init_documents, init_pdf_documents, init_schema, query_documents,
    query_pdf_documents,
};
pub use util::hashmap_to_json_value;
pub use structures::{
    Document, DocumentMetaData, OllamaEmbeddingResponse, OllamaGenerationResponse,
};
