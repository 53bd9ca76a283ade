//! The pipeline's decisions: what to ask of the model service, how to read
//! its replies, what to keep, what to retrieve and what to answer.
//!
//! Nothing here talks to a service. Each method says what is to be sent,
//! or what follows from what came back; the caller does the sending.

use crate::error::RagError;
use crate::ranking::DEFAULT_MIN_SCORE;
use crate::stamps::{is_random_uuid, is_utc_timestamp};
use crate::store::{
    delete_result, has_id, is_issued, lookup, search_result, DocumentStore, NewDocument,
    ScoredDocument, ScoredView,
};
use crate::structures::{
    Document, DocumentMetaData, DocumentView, OllamaEmbeddingResponse, OllamaGenerationResponse,
};
use crate::text::{decimal, decimal_chars, join, string_of};
use vstd::prelude::*;
use vstd::string::StringExecFns;

verus! {

/// A request for the embedding of a text.
#[derive(Debug)]
pub struct EmbeddingRequest {
    pub url: String,
    pub model: String,
    pub prompt: String,
}

/// A request for a completion, answered in one piece.
#[derive(Debug)]
pub struct GenerationRequest {
    pub url: String,
    pub model: String,
    pub prompt: String,
    pub stream: bool,
}

/// What came of a request to the model service: no answer at all, or an
/// answer with its status and, where its body could be read, its payload.
#[derive(Debug)]
pub enum ServiceReply<T> {
    Unreachable,
    Answered { status: u16, payload: Option<T> },
}

/// What a query does next.
#[derive(Debug)]
pub enum QueryStep {
    /// Nothing was retrieved: this is the answer, and no request is made.
    Answer(String),
    /// Ask the model service for a completion.
    Generate(GenerationRequest),
}

/// What `QueryStep` stands for in contracts.
pub enum StepView {
    Answer(Seq<char>),
    Generate { url: Seq<char>, model: Seq<char>, prompt: Seq<char>, stream: bool },
}

impl View for QueryStep {
    type V = StepView;

    open spec fn view(&self) -> StepView {
        match self {
            QueryStep::Answer(text) => StepView::Answer(text@),
            QueryStep::Generate(request) => StepView::Generate {
                url: request.url@,
                model: request.model@,
                prompt: request.prompt@,
                stream: request.stream,
            },
        }
    }
}

/// A status that reports success.
pub open spec fn is_success(status: u16) -> bool {
    200 <= status && status < 300
}

/// The statements that define the table of documents and its index for
/// embeddings of the given dimension.
pub open spec fn schema_text(dimension: nat) -> Seq<char> {
    "\n                DEFINE TABLE documents SCHEMAFULL;\n                DEFINE FIELD id ON documents TYPE string;\n                DEFINE FIELD content ON documents TYPE string;\n                DEFINE FIELD embedding ON documents TYPE array<float>;\n                DEFINE FIELD metadata ON documents TYPE object;\n                DEFINE FIELD created_at ON documents TYPE string;\n                DEFINE INDEX embedding_idx ON documents FIELDS embedding MTREE DIMENSION "@
        + decimal(dimension) + ";\n                "@
}

/// The content of each document.
pub open spec fn contents(docs: Seq<DocumentView>) -> Seq<Seq<char>> {
    Seq::new(docs.len(), |i: int| docs[i].content)
}

/// The context block of a prompt: the contents in the order given, with
/// an empty line between them.
pub open spec fn context_text(docs: Seq<DocumentView>) -> Seq<char> {
    join(contents(docs), "\n\n"@)
}

/// The prompt for a question: the context block, the question itself,
/// and the instruction to answer from the context alone.
pub open spec fn prompt_text(query: Seq<char>, docs: Seq<DocumentView>) -> Seq<char> {
    "Context:\n"@ + context_text(docs) + "\n\nQuestion: "@ + query
        + "\n\nAnswer based on the context above. If the context doesn't contain enough information, say so:"@
}

/// The answer to a question for which nothing was retrieved.
pub open spec fn no_documents_text() -> Seq<char> {
    "No relevant documents found in the knowledge base."@
}

/// The step that answers `query` from `docs` with the generation model
/// of the service at `ollama_url`: the fixed answer where there are no
/// documents, and otherwise the request for a completion in one piece.
pub open spec fn answer_step(
    ollama_url: Seq<char>,
    generation_model: Seq<char>,
    query: Seq<char>,
    docs: Seq<DocumentView>,
) -> StepView {
    if docs.len() == 0 {
        StepView::Answer(no_documents_text())
    } else {
        StepView::Generate {
            url: ollama_url + "/api/generate"@,
            model: generation_model,
            prompt: prompt_text(query, docs),
            stream: false,
        }
    }
}

/// The documents of scored documents, in the same order.
pub open spec fn documents_of(found: Seq<ScoredView>) -> Seq<DocumentView> {
    Seq::new(found.len(), |i: int| found[i].document)
}

/// What an embedding reply amounts to: a transport failure where the
/// service was not reached, a service failure where it reported no
/// success or sent no readable payload or a vector of the wrong
/// dimension, and the vector otherwise.
pub open spec fn embedding_outcome(reply: ServiceReply<OllamaEmbeddingResponse>, dimension: nat) -> Result<
    Seq<u32>,
    RagError,
> {
    match reply {
        ServiceReply::Unreachable => Err(RagError::TransportError),
        ServiceReply::Answered { status, payload } => match payload {
            Some(body) => if is_success(status) && body.embedding@.len() == dimension {
                Ok(body.embedding@)
            } else {
                Err(RagError::ServiceError)
            },
            None => Err(RagError::ServiceError),
        },
    }
}

/// What a generation reply amounts to: a transport failure where the
/// service was not reached, a service failure where it reported no
/// success or sent no readable payload, and the text otherwise.
pub open spec fn generation_outcome(reply: ServiceReply<OllamaGenerationResponse>) -> Result<
    Seq<char>,
    RagError,
> {
    match reply {
        ServiceReply::Unreachable => Err(RagError::TransportError),
        ServiceReply::Answered { status, payload } => match payload {
            Some(body) => if is_success(status) {
                Ok(body.response@)
            } else {
                Err(RagError::ServiceError)
            },
            None => Err(RagError::ServiceError),
        },
    }
}

/// The model service and the models to use.
#[derive(Debug)]
pub struct RagSystem {
    pub ollama_url: String,
    pub embedding_model: String,
    pub embedding_model_dimension: u16,
    pub generation_model: String,
}

impl RagSystem {
    /// A pipeline for the service at `ollama_url`.
    pub fn new(
        ollama_url: &str,
        embedding_model: &str,
        embedding_model_dimension: u16,
        generation_model: &str,
    ) -> (r: RagSystem)
        ensures
            r.ollama_url@ == ollama_url@,
            r.embedding_model@ == embedding_model@,
            r.embedding_model_dimension == embedding_model_dimension,
            r.generation_model@ == generation_model@,
    {
        RagSystem {
            ollama_url: ollama_url.to_string(),
            embedding_model: embedding_model.to_string(),
            embedding_model_dimension,
            generation_model: generation_model.to_string(),
        }
    }

    /// The statements that set up the store for embeddings of the given
    /// dimension.
    pub fn init_schema(&self, embedding_model_dimension: u16) -> (r: String)
        ensures
            r@ == schema_text(embedding_model_dimension as nat),
    {
        let mut out =
            "\n                DEFINE TABLE documents SCHEMAFULL;\n                DEFINE FIELD id ON documents TYPE string;\n                DEFINE FIELD content ON documents TYPE string;\n                DEFINE FIELD embedding ON documents TYPE array<float>;\n                DEFINE FIELD metadata ON documents TYPE object;\n                DEFINE FIELD created_at ON documents TYPE string;\n                DEFINE INDEX embedding_idx ON documents FIELDS embedding MTREE DIMENSION ".to_string();
        let number = string_of(&decimal_chars(embedding_model_dimension as u64));
        out.append(number.as_str());
        out.append(";\n                ");
        out
    }

    /// The request that asks for the embedding of `text`. The text is
    /// sent as it is: cleaning it is the caller's business.
    pub fn generate_embedding(&self, text: &str) -> (r: EmbeddingRequest)
        ensures
            r.url@ == self.ollama_url@ + "/api/embeddings"@,
            r.model@ == self.embedding_model@,
            r.prompt@ == text@,
    {
        let mut url = self.ollama_url.clone();
        url.append("/api/embeddings");
        EmbeddingRequest { url, model: self.embedding_model.clone(), prompt: text.to_string() }
    }

    /// Reads the reply to an embedding request. No vector is ever made
    /// up: a reply without a vector of the configured dimension is a
    /// failure.
    pub fn read_embedding(&self, reply: ServiceReply<OllamaEmbeddingResponse>) -> (r: Result<
        Vec<u32>,
        RagError,
    >)
        ensures
            match embedding_outcome(reply, self.embedding_model_dimension as nat) {
                Ok(vector) => (r matches Ok(found) && found@ == vector),
                Err(e) => r == Err::<Vec<u32>, RagError>(e),
            },
    {
        match reply {
            ServiceReply::Unreachable => Err(RagError::TransportError),
            ServiceReply::Answered { status, payload } => match payload {
                Some(body) => {
                    if 200 <= status && status < 300 && body.embedding.len()
                        == self.embedding_model_dimension as usize {
                        Ok(body.embedding)
                    } else {
                        Err(RagError::ServiceError)
                    }
                },
                None => Err(RagError::ServiceError),
            },
        }
    }

    /// Writes a chunk with its embedding into `store`, under a key that
    /// the store draws and at the present time. The record is written
    /// unless the embedding has the wrong dimension or the key that was
    /// drawn has been issued before, which takes a store that has issued
    /// a random key; a refusal leaves the store as it was.
    pub fn store_document(
        &self,
        store: &mut DocumentStore,
        content: &str,
        metadata: DocumentMetaData,
        embedding: Vec<u32>,
    ) -> (r: Result<String, RagError>)
        ensures
            forall|k: Seq<char>|
                #![trigger is_issued(final(store)@, k)]
                is_issued(old(store)@, k) ==> is_issued(final(store)@, k),
            r is Err ==> final(store)@ == old(store)@,
            r matches Ok(id) ==> {
                &&& is_random_uuid(id@)
                &&& !is_issued(old(store)@, id@)
                &&& has_id(final(store)@.records, id@)
                &&& final(store)@.dimension == old(store)@.dimension
                &&& final(store)@.retired == old(store)@.retired
                &&& final(store)@.records.len() == old(store)@.records.len() + 1
                &&& final(store)@.records.drop_last() == old(store)@.records
                &&& final(store)@.records.last().id == id@
                &&& final(store)@.records.last().content == content@
                &&& final(store)@.records.last().metadata == metadata@
                &&& final(store)@.records.last().embedding == embedding@
                &&& is_utc_timestamp(final(store)@.records.last().created_at)
            },
            embedding@.len() != old(store)@.dimension ==> r == Err::<String, RagError>(
                RagError::ValidationError,
            ),
            embedding@.len() == old(store)@.dimension ==> r is Ok || r == Err::<String, RagError>(
                RagError::DuplicateIdError,
            ),
            r == Err::<String, RagError>(RagError::DuplicateIdError) ==> exists|id: Seq<char>|
                is_random_uuid(id) && is_issued(old(store)@, id),
    {
        let record = NewDocument { id: None, content: content.to_string(), metadata, embedding };
        store.write(record)
    }

    /// The documents that a search by similarity selects, the most
    /// similar first, without their scores. `scores` holds the similarity
    /// of each record of `store` to the question, in millionths; a record
    /// is selected where its score exceeds one half. An empty result is
    /// no failure.
    pub fn retrieve_similar(&self, store: &DocumentStore, scores: &Vec<i64>, limit: usize) -> (r:
        Result<Vec<Document>, RagError>)
        ensures
            match r {
                Ok(found) => scores@.len() == store@.records.len() && found.deep_view()
                    == documents_of(
                    search_result(store@.records, scores@, limit as nat, DEFAULT_MIN_SCORE),
                ),
                Err(e) => scores@.len() != store@.records.len() && e == RagError::ValidationError,
            },
    {
        match store.search_similar(scores, limit, DEFAULT_MIN_SCORE) {
            Ok(found) => Ok(strip_scores(found)),
            Err(e) => Err(e),
        }
    }

    /// What answering `query` from the given documents takes. Where
    /// there are no documents, the answer is the fixed sentence that
    /// says so, and no request is made. Otherwise the step is a request
    /// for a completion, answered in one piece: its prompt holds the
    /// contents of the documents in the order given, then the question,
    /// then the instruction to answer from the context alone.
    pub fn generate_response(&self, query: &str, context_docs: &Vec<Document>) -> (r: QueryStep)
        ensures
            r@ == answer_step(
                self.ollama_url@,
                self.generation_model@,
                query@,
                context_docs.deep_view(),
            ),
            context_docs.len() == 0 <==> r is Answer,
    {
        if context_docs.len() == 0 {
            return QueryStep::Answer(
                "No relevant documents found in the knowledge base.".to_string(),
            );
        }
        let mut url = self.ollama_url.clone();
        url.append("/api/generate");
        QueryStep::Generate(
            GenerationRequest {
                url,
                model: self.generation_model.clone(),
                prompt: build_prompt(query, context_docs),
                stream: false,
            },
        )
    }

    /// Reads the reply to a generation request: the text of the service,
    /// word for word, or the failure.
    pub fn read_response(&self, reply: ServiceReply<OllamaGenerationResponse>) -> (r: Result<
        String,
        RagError,
    >)
        ensures
            match generation_outcome(reply) {
                Ok(text) => (r matches Ok(found) && found@ == text),
                Err(e) => r == Err::<String, RagError>(e),
            },
    {
        match reply {
            ServiceReply::Unreachable => Err(RagError::TransportError),
            ServiceReply::Answered { status, payload } => match payload {
                Some(body) => {
                    if 200 <= status && status < 300 {
                        Ok(body.response)
                    } else {
                        Err(RagError::ServiceError)
                    }
                },
                None => Err(RagError::ServiceError),
            },
        }
    }

    /// What to do for `question` once retrieval has yielded
    /// `similar_docs`: the step of `generate_response`. Where nothing
    /// was retrieved, that is the fixed answer, and no request is made.
    pub fn query(&self, question: &str, similar_docs: &Vec<Document>) -> (r: QueryStep)
        ensures
            r@ == answer_step(
                self.ollama_url@,
                self.generation_model@,
                question@,
                similar_docs.deep_view(),
            ),
            similar_docs.len() == 0 <==> r is Answer,
    {
        self.generate_response(question, similar_docs)
    }

    /// The record with the key `doc_id`, or `None` where there is none.
    pub fn get_document(&self, store: &DocumentStore, doc_id: &str) -> (r: Option<Document>)
        ensures
            match r {
                Some(document) => lookup(store@.records, doc_id@) == Some(document@),
                None => lookup(store@.records, doc_id@) is None,
            },
    {
        store.read(doc_id)
    }

    /// All records, in the order in which they were written.
    pub fn list_documents(&self, store: &DocumentStore) -> (r: Vec<Document>)
        ensures
            r.deep_view() == store@.records,
    {
        store.list()
    }

    /// Removes the record with the key `doc_id`, if there is one, and
    /// retires the key.
    pub fn delete_document(&self, store: &mut DocumentStore, doc_id: &str)
        ensures
            final(store)@ == delete_result(old(store)@, doc_id@),
            !has_id(final(store)@.records, doc_id@),
            forall|k: Seq<char>|
                #![trigger is_issued(final(store)@, k)]
                is_issued(old(store)@, k) ==> is_issued(final(store)@, k),
    {
        store.delete(doc_id)
    }
}

/// The documents of `found`, in the same order.
fn strip_scores(found: Vec<ScoredDocument>) -> (r: Vec<Document>)
    ensures
        r.deep_view() == documents_of(found.deep_view()),
{
    let mut out: Vec<Document> = Vec::new();
    let mut i: usize = 0;
    while i < found.len()
        invariant
            i <= found.len(),
            out.deep_view() == documents_of(found.deep_view()).take(i as int),
        decreases found.len() - i,
    {
        let ghost before = out.deep_view();
        let ghost all = documents_of(found.deep_view());
        out.push(found[i].document.clone());
        proof {
            assert(out.deep_view() =~= before.push(all[i as int]));
            assert(all.take(i + 1) =~= all.take(i as int).push(all[i as int]));
        }
        i = i + 1;
    }
    proof {
        let all = documents_of(found.deep_view());
        assert(all.take(found.len() as int) =~= all);
    }
    out
}

/// The context block for `docs`.
fn build_context(docs: &Vec<Document>) -> (r: String)
    ensures
        r@ == context_text(docs.deep_view()),
{
    let mut out = String::new();
    let mut i: usize = 0;
    let ghost all = contents(docs.deep_view());
    while i < docs.len()
        invariant
            i <= docs.len(),
            all == contents(docs.deep_view()),
            out@ == join(all.take(i as int), "\n\n"@),
        decreases docs.len() - i,
    {
        proof {
            assert(all.take(i + 1).drop_last() =~= all.take(i as int));
            assert(all.take(i + 1).last() == docs[i as int].content@);
        }
        if i > 0 {
            out.append("\n\n");
        }
        out.append(docs[i].content.as_str());
        proof {
            if i == 0 {
                assert(out@ =~= docs[i as int].content@);
            }
        }
        i = i + 1;
    }
    proof {
        assert(all.take(docs.len() as int) =~= all);
    }
    out
}

/// The prompt that puts `query` to the model with `docs` as its context.
pub fn build_prompt(query: &str, docs: &Vec<Document>) -> (r: String)
    ensures
        r@ == prompt_text(query@, docs.deep_view()),
{
    let mut out = "Context:\n".to_string();
    let context = build_context(docs);
    out.append(context.as_str());
    out.append("\n\nQuestion: ");
    out.append(query);
    out.append(
        "\n\nAnswer based on the context above. If the context doesn't contain enough information, say so:",
    );
    out
}

} // verus!
