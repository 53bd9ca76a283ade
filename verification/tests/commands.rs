use rag_system::cli::{CliAction, Subcommand, ABOUT, PROGRAM, VERSION};
use rag_system::config::{
    default_ollama_embedding_model, default_ollama_generation_model, default_ollama_url,
    default_surreal_db_db, default_surreal_db_ns, default_surreal_db_pass,
    default_surreal_db_url, default_surreal_db_user,
};
use rag_system::sub_commands::info::content_preview;
use rag_system::chunker::CHUNK_SIZE;
use rag_system::sub_commands::init_pdf_documents::IngestFailure;
use rag_system::text::{chars_of, decimal_chars, string_of};
use rag_system::{
    documents_from_pages, hashmap_to_json_value, info, init_documents, init_pdf_documents,
    query_documents, query_pdf_documents, Cli, Configuration, Document, DocumentMetaData,
    RagError,
};
use std::collections::HashMap;

#[test]
fn commands_are_found_by_name() {
    assert_eq!(Cli::run(Some("info")), CliAction::Run(Subcommand::Info));
    assert_eq!(Cli::run(Some("init-schema")), CliAction::Run(Subcommand::InitSchema));
    assert_eq!(Cli::run(Some("init-documents")), CliAction::Run(Subcommand::InitDocuments));
    assert_eq!(Cli::run(Some("init-pdf-documents")), CliAction::Run(Subcommand::InitPdfDocuments));
    assert_eq!(Cli::run(Some("query-documents")), CliAction::Run(Subcommand::QueryDocuments));
    assert_eq!(
        Cli::run(Some("query-pdf-documents")),
        CliAction::Run(Subcommand::QueryPdfDocuments)
    );
}

#[test]
fn anything_else_shows_the_help() {
    assert_eq!(Cli::run(None), CliAction::PrintHelp);
    assert_eq!(Cli::run(Some("")), CliAction::PrintHelp);
    assert_eq!(Cli::run(Some("Info")), CliAction::PrintHelp);
    assert_eq!(Cli::run(Some("info ")), CliAction::PrintHelp);
    assert_eq!(Cli::run(Some("query")), CliAction::PrintHelp);
}

#[test]
fn every_command_parses_its_own_name() {
    let all = Subcommand::all();
    assert_eq!(all.len(), 6);
    for command in all {
        assert_eq!(Subcommand::parse(&command.name()), Some(command));
    }
}

#[test]
fn command_texts() {
    assert_eq!(PROGRAM, "rigrag");
    assert_eq!(VERSION, "1.0");
    assert_eq!(ABOUT, "Rig Rag Rust PoC CLI");
    assert_eq!(Subcommand::Info.about(), "Knowledge base info");
    assert_eq!(Subcommand::InitSchema.about(), "Init vectorDB Schema");
    assert_eq!(Subcommand::InitDocuments.about(), "Init sample documents");
    assert_eq!(Subcommand::InitPdfDocuments.about(), "Init PDF sample documents");
    assert_eq!(Subcommand::QueryDocuments.about(), "Query knowledge base sample documents");
    assert_eq!(Subcommand::QueryPdfDocuments.about(), "Query knowledge base PDF documents");
    assert_eq!(Subcommand::Info.finished(), "Finished knowledge base info");
    assert_eq!(Subcommand::InitSchema.finished(), "Finished vectorDB schema initialization");
    assert_eq!(Subcommand::InitDocuments.finished(), "Finished sample documents initialization");
    assert_eq!(
        Subcommand::InitPdfDocuments.finished(),
        "Finished PDF sample documents initialization"
    );
    assert_eq!(
        Subcommand::QueryDocuments.finished(),
        "Finished query knowledge base sample documents"
    );
    assert_eq!(
        Subcommand::QueryPdfDocuments.finished(),
        "Finished query knowledge base pdf documents"
    );
}

#[test]
fn configuration_defaults() {
    assert_eq!(default_surreal_db_url(), "127.0.0.1:8000");
    assert_eq!(default_surreal_db_user(), "root");
    assert_eq!(default_surreal_db_pass(), "root");
    assert_eq!(default_surreal_db_ns(), "rag");
    assert_eq!(default_surreal_db_db(), "documents");
    assert_eq!(default_ollama_url(), "http://localhost:11434");
    assert_eq!(default_ollama_embedding_model(), "nomic-embed-text");
    assert_eq!(default_ollama_generation_model(), "llama3.2");
    let c = Configuration::default();
    assert_eq!(c.surreal_db_url, "127.0.0.1:8000");
    assert_eq!(c.surreal_db_user, "root");
    assert_eq!(c.surreal_db_ns, "rag");
    assert_eq!(c.surreal_db_db, "documents");
    assert_eq!(c.surreal_db_pass, "root");
    assert_eq!(c.ollama_url, "http://localhost:11434");
    assert_eq!(c.ollama_embedding_model, "nomic-embed-text");
    assert_eq!(c.ollama_generation_model, "llama3.2");
}

#[test]
fn configuration_takes_what_is_set() {
    let c = Configuration::from_settings(
        Some("db:1".to_string()),
        None,
        Some("ns".to_string()),
        None,
        Some("secret".to_string()),
        None,
        Some("embed".to_string()),
        None,
    );
    assert_eq!(c.surreal_db_url, "db:1");
    assert_eq!(c.surreal_db_user, "root");
    assert_eq!(c.surreal_db_ns, "ns");
    assert_eq!(c.surreal_db_db, "documents");
    assert_eq!(c.surreal_db_pass, "secret");
    assert_eq!(c.ollama_url, "http://localhost:11434");
    assert_eq!(c.ollama_embedding_model, "embed");
    assert_eq!(c.ollama_generation_model, "llama3.2");
}

#[test]
fn decimal_numbers() {
    for n in [0u64, 1, 9, 10, 11, 99, 100, 101, 768, 65535, 1_000_000, u64::MAX] {
        assert_eq!(string_of(&decimal_chars(n)), n.to_string());
    }
}

#[test]
fn preview_is_a_hundred_characters() {
    assert_eq!(content_preview(""), "");
    assert_eq!(content_preview("short"), "short");
    let exact: String = "\u{e9}".repeat(100);
    assert_eq!(content_preview(&exact), exact);
    let long: String = "\u{e9}".repeat(101);
    assert_eq!(content_preview(&long), exact);
    assert_eq!(chars_of(&content_preview(&"ab".repeat(300))).len(), 100);
}

#[test]
fn report_on_the_knowledge_base() {
    let docs = vec![
        Document {
            id: "k1".to_string(),
            content: "x".repeat(150),
            metadata: DocumentMetaData { index: 12, source: "essay.pdf".to_string() },
            embedding: vec![],
            created_at: "t".to_string(),
        },
        Document {
            id: "k2".to_string(),
            content: "short".to_string(),
            metadata: DocumentMetaData { index: 0, source: "moke1.txt ".to_string() },
            embedding: vec![],
            created_at: "t".to_string(),
        },
    ];
    let lines = info(&docs);
    let expected = vec![
        format!("\n{}", "=".repeat(60)),
        "System Information:".to_string(),
        "Total documents in knowledge base: 2".to_string(),
        "- Document ID: k1".to_string(),
        format!("  Content preview: {}...", "x".repeat(100)),
        format!("  Metadata: {:?}", Meta { index: 12, source: "essay.pdf".to_string() })
            .replace("Meta {", "DocumentMetaData {"),
        String::new(),
        "- Document ID: k2".to_string(),
        "  Content preview: short...".to_string(),
        "  Metadata: DocumentMetaData { index: 0, source: \"moke1.txt \" }".to_string(),
        String::new(),
    ];
    assert_eq!(lines, expected);
    assert_eq!(info(&Vec::new()), expected[..2].iter().cloned().chain(
        ["Total documents in knowledge base: 0".to_string()]).collect::<Vec<String>>());
}

#[derive(Debug)]
struct Meta {
    #[allow(dead_code)]
    index: usize,
    #[allow(dead_code)]
    source: String,
}

#[test]
fn sample_documents() {
    let docs = init_documents();
    assert_eq!(docs.len(), 4);
    assert!(docs[0].0.starts_with("Rust is a systems programming language"));
    assert!(docs[0].0.ends_with("maintained by the Rust Foundation."));
    assert!(docs[1].0.starts_with("SurrealDB is a scalable"));
    assert!(docs[2].0.starts_with("Ollama is an open-source tool"));
    assert!(docs[3].0.ends_with("and RAG applications."));
    for (k, (_, metadata)) in docs.iter().enumerate() {
        assert_eq!(metadata.index, 0);
        assert_eq!(metadata.source, format!("moke{}.txt ", k + 1));
    }
}

#[test]
fn questions_to_put() {
    let sample = query_documents();
    assert_eq!(sample, vec![
        "What is Rust programming language?",
        "How does SurrealDB work?",
        "What is Ollama used for?",
        "What are vector databases?",
        "How can I run LLMs locally?",
    ]);
    let essay = query_pdf_documents();
    assert_eq!(essay.len(), 10);
    assert_eq!(essay[0], "What is the central thesis of \"Moore\u{2019}s Law for Everything\"?");
    assert_eq!(essay[5], "What is meant by 'Moore\u{2019}s Law for everything'?");
    assert_eq!(
        essay[9],
        "How does the author contrast \u{201c}more good\u{201d} versus \u{201c}less bad\u{201d} approaches to societal progress?"
    );
}

#[test]
fn files_become_documents() {
    let files = vec![
        ("one.pdf".to_string(), vec!["alpha\0 beta".to_string(), "gamma\x01".to_string()]),
        ("two.pdf".to_string(), vec!["delta".to_string()]),
    ];
    let docs = init_pdf_documents(&files, CHUNK_SIZE).unwrap();
    assert_eq!(docs.len(), 2);
    assert_eq!(docs[0].0, "alpha beta gamma");
    assert_eq!(docs[0].1.index, 0);
    assert_eq!(docs[0].1.source, "one.pdf");
    assert_eq!(docs[1].0, "delta");
    assert_eq!(docs[1].1.index, 0);
    assert_eq!(docs[1].1.source, "two.pdf");
}

#[test]
fn long_files_are_indexed_in_order() {
    let word = "w".repeat(1200);
    let files = vec![("big.pdf".to_string(), vec![format!("{} {} {}", word, word, word)])];
    let docs = init_pdf_documents(&files, CHUNK_SIZE).unwrap();
    assert_eq!(docs.len(), 3);
    for (i, (content, metadata)) in docs.iter().enumerate() {
        assert_eq!(content, &word);
        assert_eq!(metadata.index, i);
        assert_eq!(metadata.source, "big.pdf");
    }
}

#[test]
fn blank_file_stops_the_batch() {
    let files = vec![
        ("one.pdf".to_string(), vec!["alpha".to_string()]),
        ("blank.pdf".to_string(), vec![" \n".to_string(), "".to_string()]),
        ("also-blank.pdf".to_string(), vec![]),
    ];
    assert_eq!(
        init_pdf_documents(&files, CHUNK_SIZE).err(),
        Some(IngestFailure { document: 1, error: RagError::ValidationError })
    );
    assert!(init_pdf_documents(&Vec::new(), CHUNK_SIZE).unwrap().is_empty());
}

#[test]
fn five_letters_are_five_documents() {
    let pages = vec!["A B C D E".to_string()];
    let docs = documents_from_pages("letters.txt", &pages, 3).unwrap();
    let seen: Vec<(String, usize, String)> =
        docs.iter().map(|(c, m)| (c.clone(), m.index, m.source.clone())).collect();
    let expected: Vec<(String, usize, String)> = ["A", "B", "C", "D", "E"]
        .iter()
        .enumerate()
        .map(|(i, c)| (c.to_string(), i, "letters.txt".to_string()))
        .collect();
    assert_eq!(seen, expected);
    let batch = init_pdf_documents(&vec![("letters.txt".to_string(), pages)], 3).unwrap();
    assert_eq!(batch.len(), 5);
    assert_eq!(batch[4].0, "E");
    assert_eq!(batch[4].1.index, 4);
}

#[test]
fn one_file_without_words_is_refused() {
    assert_eq!(
        documents_from_pages("blank.pdf", &vec![" \n".to_string()], CHUNK_SIZE).err(),
        Some(RagError::ValidationError)
    );
    assert_eq!(
        documents_from_pages("none.pdf", &Vec::new(), 3).err(),
        Some(RagError::ValidationError)
    );
}

#[test]
fn report_escapes_the_source() {
    let docs = vec![Document {
        id: "k".to_string(),
        content: "c".to_string(),
        metadata: DocumentMetaData { index: 1, source: "a \"b\"\\c\n.pdf".to_string() },
        embedding: vec![],
        created_at: "t".to_string(),
    }];
    let lines = info(&docs);
    assert_eq!(
        lines[5],
        format!("  Metadata: {:?}", Meta { index: 1, source: "a \"b\"\\c\n.pdf".to_string() })
            .replace("Meta {", "DocumentMetaData {")
    );
    assert_eq!(lines[5], "  Metadata: DocumentMetaData { index: 1, source: \"a \\\"b\\\"\\\\c\\n.pdf\" }");
}

#[test]
fn map_becomes_a_json_object() {
    let mut map = HashMap::new();
    map.insert("source".to_string(), "essay.pdf".to_string());
    map.insert("index".to_string(), "3".to_string());
    let value = hashmap_to_json_value(map);
    let object = value.as_object().unwrap();
    assert_eq!(object.len(), 2);
    assert_eq!(object.get("source").and_then(|v| v.as_str()), Some("essay.pdf"));
    assert_eq!(object.get("index").and_then(|v| v.as_str()), Some("3"));
    let empty = hashmap_to_json_value(HashMap::new());
    assert_eq!(empty.as_object().map(|o| o.len()), Some(0));
}
