//! Settings of the store and of the model service, with their defaults.

use vstd::prelude::*;

verus! {

/// The dimension of the embeddings of the default embedding model.
pub const EMBEDDING_MODEL_DIMENSION: u16 = 768;

/// Address of the document store where none is configured.
pub fn default_surreal_db_url() -> (r: String)
    ensures
        r@ == "127.0.0.1:8000"@,
{
    "127.0.0.1:8000".to_string()
}

/// User of the document store where none is configured.
pub fn default_surreal_db_user() -> (r: String)
    ensures
        r@ == "root"@,
{
    "root".to_string()
}

/// Password of the document store where none is configured.
pub fn default_surreal_db_pass() -> (r: String)
    ensures
        r@ == "root"@,
{
    "root".to_string()
}

/// Namespace of the document store where none is configured.
pub fn default_surreal_db_ns() -> (r: String)
    ensures
        r@ == "rag"@,
{
    "rag".to_string()
}

/// Database of the document store where none is configured.
pub fn default_surreal_db_db() -> (r: String)
    ensures
        r@ == "documents"@,
{
    "documents".to_string()
}

/// Address of the model service where none is configured.
pub fn default_ollama_url() -> (r: String)
    ensures
        r@ == "http://localhost:11434"@,
{
    "http://localhost:11434".to_string()
}

/// Embedding model where none is configured.
pub fn default_ollama_embedding_model() -> (r: String)
    ensures
        r@ == "nomic-embed-text"@,
{
    "nomic-embed-text".to_string()
}

/// Generation model where none is configured.
pub fn default_ollama_generation_model() -> (r: String)
    ensures
        r@ == "llama3.2"@,
{
    "llama3.2".to_string()
}

/// Where the store and the model service are, and which models to use.
#[derive(Debug)]
pub struct Configuration {
    pub surreal_db_url: String,
    pub surreal_db_user: String,
    pub surreal_db_ns: String,
    pub surreal_db_db: String,
    pub surreal_db_pass: String,
    pub ollama_url: String,
    pub ollama_embedding_model: String,
    pub ollama_generation_model: String,
}

/// The configured value, or `fallback` where nothing is configured.
pub open spec fn value_or(given: Option<String>, fallback: Seq<char>) -> Seq<char> {
    match given {
        Some(text) => text@,
        None => fallback,
    }
}

impl Configuration {
    /// The configuration in which every setting has its default.
    pub open spec fn is_default(&self) -> bool {
        &&& self.surreal_db_url@ == "127.0.0.1:8000"@
        &&& self.surreal_db_user@ == "root"@
        &&& self.surreal_db_ns@ == "rag"@
        &&& self.surreal_db_db@ == "documents"@
        &&& self.surreal_db_pass@ == "root"@
        &&& self.ollama_url@ == "http://localhost:11434"@
        &&& self.ollama_embedding_model@ == "nomic-embed-text"@
        &&& self.ollama_generation_model@ == "llama3.2"@
    }

    /// Builds a configuration from the settings that were found: each
    /// setting that is missing takes its default.
    pub fn from_settings(
        surreal_db_url: Option<String>,
        surreal_db_user: Option<String>,
        surreal_db_ns: Option<String>,
        surreal_db_db: Option<String>,
        surreal_db_pass: Option<String>,
        ollama_url: Option<String>,
        ollama_embedding_model: Option<String>,
        ollama_generation_model: Option<String>,
    ) -> (r: Configuration)
        ensures
            r.surreal_db_url@ == value_or(surreal_db_url, "127.0.0.1:8000"@),
            r.surreal_db_user@ == value_or(surreal_db_user, "root"@),
            r.surreal_db_ns@ == value_or(surreal_db_ns, "rag"@),
            r.surreal_db_db@ == value_or(surreal_db_db, "documents"@),
            r.surreal_db_pass@ == value_or(surreal_db_pass, "root"@),
            r.ollama_url@ == value_or(ollama_url, "http://localhost:11434"@),
            r.ollama_embedding_model@ == value_or(ollama_embedding_model, "nomic-embed-text"@),
            r.ollama_generation_model@ == value_or(ollama_generation_model, "llama3.2"@),
    {
        Configuration {
            surreal_db_url: match surreal_db_url {
                Some(text) => text,
                None => default_surreal_db_url(),
            },
            surreal_db_user: match surreal_db_user {
                Some(text) => text,
                None => default_surreal_db_user(),
            },
            surreal_db_ns: match surreal_db_ns {
                Some(text) => text,
                None => default_surreal_db_ns(),
            },
            surreal_db_db: match surreal_db_db {
                Some(text) => text,
                None => default_surreal_db_db(),
            },
            surreal_db_pass: match surreal_db_pass {
                Some(text) => text,
                None => default_surreal_db_pass(),
            },
            ollama_url: match ollama_url {
                Some(text) => text,
                None => default_ollama_url(),
            },
            ollama_embedding_model: match ollama_embedding_model {
                Some(text) => text,
                None => default_ollama_embedding_model(),
            },
            ollama_generation_model: match ollama_generation_model {
                Some(text) => text,
                None => default_ollama_generation_model(),
            },
        }
    }
}

impl Default for Configuration {
    fn default() -> (r: Configuration)
        ensures
            r.is_default(),
    {
        Configuration::from_settings(None, None, None, None, None, None, None, None)
    }
}

} // verus!
