//! What the commands of the command line compute: the report on the
//! knowledge base, the documents to ingest, the statements that set up
//! the store, and the questions to put.

pub mod info;
pub mod init_documents;
pub mod init_pdf_documents;
pub mod init_schema;
pub mod query_pdf_documents;
pub mod query_sample_documents;

pub use info::info;
pub use init_documents::init_documents;
pub use init_pdf_documents::{documents_from_pages, init_pdf_documents};
pub use init_schema::init_schema;
pub use query_pdf_documents::query as query_pdf_documents;
pub use query_sample_documents::query as query_documents;
