use rag_system::chunker::chunk;
use rag_system::rag_system::{build_prompt, QueryStep, ServiceReply};
use rag_system::store::DocumentStore;
use rag_system::{
    documents_from_pages, Document, DocumentMetaData, OllamaEmbeddingResponse,
    OllamaGenerationResponse, RagError, RagSystem,
};

fn system() -> RagSystem {
    RagSystem::new("http://localhost:11434", "nomic-embed-text", 2, "llama3.2")
}

fn doc(id: &str, content: &str) -> Document {
    Document {
        id: id.to_string(),
        content: content.to_string(),
        metadata: DocumentMetaData { index: 0, source: "s".to_string() },
        embedding: vec![0, 0],
        created_at: "t".to_string(),
    }
}

#[test]
fn new_keeps_its_arguments() {
    let rag = system();
    assert_eq!(rag.ollama_url, "http://localhost:11434");
    assert_eq!(rag.embedding_model, "nomic-embed-text");
    assert_eq!(rag.embedding_model_dimension, 2);
    assert_eq!(rag.generation_model, "llama3.2");
}

#[test]
fn schema_names_the_dimension() {
    let text = system().init_schema(768);
    assert_eq!(
        text,
        format!(
            "
                DEFINE TABLE documents SCHEMAFULL;
                DEFINE FIELD id ON documents TYPE string;
                DEFINE FIELD content ON documents TYPE string;
                DEFINE FIELD embedding ON documents TYPE array<float>;
                DEFINE FIELD metadata ON documents TYPE object;
                DEFINE FIELD created_at ON documents TYPE string;
                DEFINE INDEX embedding_idx ON documents FIELDS embedding MTREE DIMENSION {};
                ",
            768
        )
    );
    assert!(system().init_schema(0).contains("DIMENSION 0;"));
    assert!(system().init_schema(65535).contains("DIMENSION 65535;"));
    assert_eq!(rag_system::init_schema(&system()), system().init_schema(2));
}

#[test]
fn embedding_request_is_framed() {
    let request = system().generate_embedding(" raw\0text ");
    assert_eq!(request.url, "http://localhost:11434/api/embeddings");
    assert_eq!(request.model, "nomic-embed-text");
    assert_eq!(request.prompt, " raw\0text ");
}

#[test]
fn embedding_reply_is_classified() {
    let rag = system();
    let body = |v: Vec<u32>| Some(OllamaEmbeddingResponse { embedding: v });
    assert_eq!(rag.read_embedding(ServiceReply::Unreachable), Err(RagError::TransportError));
    assert_eq!(
        rag.read_embedding(ServiceReply::Answered { status: 200, payload: None }),
        Err(RagError::ServiceError)
    );
    assert_eq!(
        rag.read_embedding(ServiceReply::Answered { status: 500, payload: body(vec![1, 2]) }),
        Err(RagError::ServiceError)
    );
    assert_eq!(
        rag.read_embedding(ServiceReply::Answered { status: 199, payload: body(vec![1, 2]) }),
        Err(RagError::ServiceError)
    );
    assert_eq!(
        rag.read_embedding(ServiceReply::Answered { status: 300, payload: body(vec![1, 2]) }),
        Err(RagError::ServiceError)
    );
    assert_eq!(
        rag.read_embedding(ServiceReply::Answered { status: 200, payload: body(vec![]) }),
        Err(RagError::ServiceError)
    );
    assert_eq!(
        rag.read_embedding(ServiceReply::Answered { status: 200, payload: body(vec![1, 2, 3]) }),
        Err(RagError::ServiceError)
    );
    assert_eq!(
        rag.read_embedding(ServiceReply::Answered { status: 200, payload: body(vec![7, 9]) }),
        Ok(vec![7, 9])
    );
    assert_eq!(
        rag.read_embedding(ServiceReply::Answered { status: 299, payload: body(vec![7, 9]) }),
        Ok(vec![7, 9])
    );
}

#[test]
fn generation_reply_is_classified() {
    let rag = system();
    let body = |s: &str| Some(OllamaGenerationResponse { response: s.to_string() });
    assert_eq!(rag.read_response(ServiceReply::Unreachable), Err(RagError::TransportError));
    assert_eq!(
        rag.read_response(ServiceReply::Answered { status: 200, payload: None }),
        Err(RagError::ServiceError)
    );
    assert_eq!(
        rag.read_response(ServiceReply::Answered { status: 404, payload: body("x") }),
        Err(RagError::ServiceError)
    );
    assert_eq!(
        rag.read_response(ServiceReply::Answered { status: 200, payload: body(" as\0is \n") }),
        Ok(" as\0is \n".to_string())
    );
    assert_eq!(
        rag.read_response(ServiceReply::Answered { status: 200, payload: body("") }),
        Ok(String::new())
    );
}

#[test]
fn only_transport_failures_are_retryable() {
    assert!(RagError::TransportError.is_retryable());
    assert!(!RagError::ServiceError.is_retryable());
    assert!(!RagError::ValidationError.is_retryable());
    assert!(!RagError::DuplicateIdError.is_retryable());
}

#[test]
fn prompt_follows_the_template() {
    let docs = vec![doc("a", "First fact."), doc("b", "Second fact.")];
    assert_eq!(
        build_prompt("What is known?", &docs),
        "Context:\nFirst fact.\n\nSecond fact.\n\nQuestion: What is known?\n\nAnswer based on the context above. If the context doesn't contain enough information, say so:"
    );
    assert_eq!(
        build_prompt("Q", &docs[..1].to_vec()),
        "Context:\nFirst fact.\n\nQuestion: Q\n\nAnswer based on the context above. If the context doesn't contain enough information, say so:"
    );
    assert_eq!(
        build_prompt("", &Vec::new()),
        "Context:\n\n\nQuestion: \n\nAnswer based on the context above. If the context doesn't contain enough information, say so:"
    );
}

#[test]
fn generation_request_is_framed() {
    let docs = vec![doc("a", "Fact.")];
    match system().generate_response("Why?", &docs) {
        QueryStep::Generate(request) => {
            assert_eq!(request.url, "http://localhost:11434/api/generate");
            assert_eq!(request.model, "llama3.2");
            assert_eq!(request.prompt, build_prompt("Why?", &docs));
            assert!(!request.stream);
        },
        QueryStep::Answer(_) => panic!("no request was framed"),
    }
}

#[test]
fn no_request_is_framed_for_an_empty_context() {
    for question in ["", "Why?", "Anything else?"] {
        match system().generate_response(question, &Vec::new()) {
            QueryStep::Answer(text) => {
                assert_eq!(text, "No relevant documents found in the knowledge base.")
            },
            QueryStep::Generate(_) => panic!("a request was framed for an empty context"),
        }
    }
}

#[test]
fn empty_context_answers_without_a_request() {
    match system().query("Anything?", &Vec::new()) {
        QueryStep::Answer(text) => {
            assert_eq!(text, "No relevant documents found in the knowledge base.")
        },
        QueryStep::Generate(_) => panic!("a request was planned for an empty context"),
    }
}

#[test]
fn context_leads_to_a_request() {
    let docs = vec![doc("a", "Fact one."), doc("b", "Fact two.")];
    match system().query("Anything?", &docs) {
        QueryStep::Generate(request) => {
            assert_eq!(request.url, "http://localhost:11434/api/generate");
            assert_eq!(request.model, "llama3.2");
            assert!(request.prompt.starts_with("Context:\nFact one.\n\nFact two.\n\nQuestion: Anything?"));
            assert!(!request.stream);
        },
        QueryStep::Answer(_) => panic!("no request was planned"),
    }
}

#[test]
fn ingest_and_list_five_letters() {
    let rag = system();
    let mut store = DocumentStore::new(2);
    assert_eq!(chunk("A B C D E", 3), vec!["A", "B", "C", "D", "E"]);
    let documents =
        documents_from_pages("letters.txt", &vec!["A B C D E".to_string()], 3).unwrap();
    assert_eq!(documents.len(), 5);
    let mut ids = Vec::new();
    for (i, (content, metadata)) in documents.into_iter().enumerate() {
        assert_eq!(metadata.index, i);
        let embedding = vec![(i as f32).to_bits(), 1.0f32.to_bits()];
        ids.push(rag.store_document(&mut store, &content, metadata, embedding).unwrap());
    }
    let listed = rag.list_documents(&store);
    assert_eq!(listed.len(), 5);
    for (i, d) in listed.iter().enumerate() {
        assert_eq!(d.id, ids[i]);
        assert_eq!(d.content, ["A", "B", "C", "D", "E"][i]);
        assert_eq!(d.metadata.index, i);
        assert_eq!(d.metadata.source, "letters.txt");
        assert_eq!(rag.get_document(&store, &ids[i]).unwrap().content, d.content);
    }
    let mut seen = ids.clone();
    seen.sort();
    seen.dedup();
    assert_eq!(seen.len(), 5);
    rag.delete_document(&mut store, &ids[2]);
    let left: Vec<String> = rag.list_documents(&store).iter().map(|d| d.content.clone()).collect();
    assert_eq!(left, vec!["A", "B", "D", "E"]);
    assert!(rag.get_document(&store, &ids[2]).is_none());
}

#[test]
fn storing_checks_the_dimension() {
    let rag = system();
    let mut store = DocumentStore::new(2);
    let metadata = DocumentMetaData { index: 0, source: "s".to_string() };
    assert_eq!(
        rag.store_document(&mut store, "c", metadata, vec![1, 2, 3]),
        Err(RagError::ValidationError)
    );
    assert_eq!(store.len(), 0);
}

#[test]
fn retrieval_uses_the_floor_of_one_half() {
    let rag = system();
    let mut store = DocumentStore::new(2);
    for id in ["a", "b", "c", "d"] {
        store.insert(doc(id, id)).unwrap();
    }
    let scores = vec![500_000, 999_999, 500_001, 100];
    let found = rag.retrieve_similar(&store, &scores, 5).unwrap();
    let ids: Vec<&str> = found.iter().map(|d| d.id.as_str()).collect();
    assert_eq!(ids, vec!["b", "c"]);
    let one = rag.retrieve_similar(&store, &scores, 1).unwrap();
    assert_eq!(one.len(), 1);
    assert_eq!(one[0].id, "b");
    let none = rag.retrieve_similar(&store, &vec![0, 0, 0, 0], 5).unwrap();
    assert!(none.is_empty());
    assert_eq!(rag.retrieve_similar(&store, &vec![1], 5).err(), Some(RagError::ValidationError));
}
