//! Turning files of extracted text into documents to ingest.

use crate::chunk_processor::{sanitize_chunk_comprehensive, sanitized};
use crate::chunker::{chunks_of, load_pdf, tokens_of_all};
use crate::error::RagError;
use crate::structures::{DocumentMetaData, MetaDataView};
use vstd::prelude::*;

verus! {

/// Why a batch was not ingested: which file failed, counted from zero,
/// and how.
#[derive(Clone, Copy, Debug, PartialEq, Eq, Structural)]
pub struct IngestFailure {
    pub document: usize,
    pub error: RagError,
}

/// The documents made of the chunks of one source: each chunk cleaned,
/// with its place among the chunks and the name of the source.
pub open spec fn prepared(source: Seq<char>, chunks: Seq<Seq<char>>) -> Seq<
    (Seq<char>, MetaDataView),
> {
    Seq::new(
        chunks.len(),
        |i: int| (sanitized(chunks[i]), MetaDataView { index: i as nat, source: source }),
    )
}

/// The documents made of one file: its text chunked at `limit`.
pub open spec fn documents_of_file(file: (Seq<char>, Seq<Seq<char>>), limit: nat) -> Seq<
    (Seq<char>, MetaDataView),
> {
    prepared(file.0, chunks_of(tokens_of_all(file.1), limit))
}

/// The documents made of the files, file after file.
pub open spec fn documents_of_files(files: Seq<(Seq<char>, Seq<Seq<char>>)>, limit: nat) -> Seq<
    (Seq<char>, MetaDataView),
>
    decreases files.len(),
{
    if files.len() == 0 {
        Seq::empty()
    } else {
        documents_of_files(files.drop_last(), limit) + documents_of_file(files.last(), limit)
    }
}

/// The file holds no token.
pub open spec fn is_blank(file: (Seq<char>, Seq<Seq<char>>)) -> bool {
    tokens_of_all(file.1).len() == 0
}

/// The documents of one source, from its chunks.
fn prepare(source: &str, chunks: &Vec<String>) -> (r: Vec<(String, DocumentMetaData)>)
    ensures
        r.deep_view() == prepared(source@, chunks.deep_view()),
{
    let mut out: Vec<(String, DocumentMetaData)> = Vec::new();
    let mut i: usize = 0;
    let ghost all = prepared(source@, chunks.deep_view());
    while i < chunks.len()
        invariant
            i <= chunks.len(),
            all == prepared(source@, chunks.deep_view()),
            out.deep_view() == all.take(i as int),
        decreases chunks.len() - i,
    {
        let ghost before = out.deep_view();
        let clean = sanitize_chunk_comprehensive(chunks[i].as_str());
        out.push((clean, DocumentMetaData { index: i, source: source.to_string() }));
        proof {
            assert(out.deep_view() =~= before.push(all[i as int]));
            assert(all.take(i + 1) =~= all.take(i as int).push(all[i as int]));
        }
        i = i + 1;
    }
    proof {
        assert(all.take(chunks.len() as int) =~= all);
    }
    out
}

/// Makes the documents to ingest from one file of extracted text: the
/// name of the file and the pieces of its text, such as pages. The text
/// is chunked at `chunk_size_limit`; each chunk is cleaned and becomes a
/// document that records its place among the chunks of the file, counted
/// from zero, and the name of the file. A file without any token is
/// refused with `ValidationError`.
pub fn documents_from_pages(source: &str, pages: &Vec<String>, chunk_size_limit: usize) -> (r:
    Result<Vec<(String, DocumentMetaData)>, RagError>)
    ensures
        match r {
            Ok(documents) => !is_blank((source@, pages.deep_view())) && documents.deep_view()
                == documents_of_file((source@, pages.deep_view()), chunk_size_limit as nat),
            Err(e) => is_blank((source@, pages.deep_view())) && e == RagError::ValidationError,
        },
{
    match load_pdf(pages, chunk_size_limit) {
        Ok(chunks) => Ok(prepare(source, &chunks)),
        Err(e) => Err(e),
    }
}

/// Makes the documents to ingest from files of extracted text, each as
/// `documents_from_pages` does, file after file. The first file without
/// any token stops the batch: the failure names it, and no document is
/// returned.
pub fn init_pdf_documents(files: &Vec<(String, Vec<String>)>, chunk_size_limit: usize) -> (r:
    Result<Vec<(String, DocumentMetaData)>, IngestFailure>)
    ensures
        match r {
            Ok(documents) => {
                &&& forall|k: int| 0 <= k < files.len() ==> !is_blank(#[trigger] files.deep_view()[k])
                &&& documents.deep_view() == documents_of_files(
                    files.deep_view(),
                    chunk_size_limit as nat,
                )
            },
            Err(failure) => {
                &&& failure.error == RagError::ValidationError
                &&& failure.document < files.len()
                &&& is_blank(files.deep_view()[failure.document as int])
                &&& forall|k: int|
                    0 <= k < failure.document ==> !is_blank(#[trigger] files.deep_view()[k])
            },
        },
{
    let mut out: Vec<(String, DocumentMetaData)> = Vec::new();
    let mut k: usize = 0;
    let ghost all = files.deep_view();
    let ghost limit = chunk_size_limit as nat;
    assert(out.deep_view() =~= documents_of_files(all.take(0), limit));
    while k < files.len()
        invariant
            k <= files.len(),
            all == files.deep_view(),
            limit == chunk_size_limit as nat,
            forall|j: int| 0 <= j < k ==> !is_blank(#[trigger] all[j]),
            out.deep_view() == documents_of_files(all.take(k as int), limit),
        decreases files.len() - k,
    {
        let file = &files[k];
        proof {
            assert(all[k as int] == (file.0@, file.1.deep_view()));
            assert(all.take(k + 1).drop_last() =~= all.take(k as int));
            assert(all.take(k + 1).last() == all[k as int]);
        }
        match documents_from_pages(file.0.as_str(), &file.1, chunk_size_limit) {
            Ok(mut found) => {
                let ghost before = out.deep_view();
                let ghost added = found.deep_view();
                out.append(&mut found);
                assert(out.deep_view() =~= before + added);
            },
            Err(error) => {
                return Err(IngestFailure { document: k, error });
            },
        }
        k = k + 1;
    }
    proof {
        assert(all.take(files.len() as int) =~= all);
    }
    Ok(out)
}

} // verus!
