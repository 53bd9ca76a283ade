//! Setting up the store.

use crate::rag_system::{schema_text, RagSystem};
use vstd::prelude::*;

verus! {

/// The statements that set up the store for the embeddings of the
/// pipeline's model.
pub fn init_schema(rag: &RagSystem) -> (r: String)
    ensures
        r@ == schema_text(rag.embedding_model_dimension as nat),
{
    rag.init_schema(rag.embedding_model_dimension)
}

} // verus!
