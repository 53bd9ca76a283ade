//! The report on the knowledge base.

use crate::structures::{Document, DocumentView};
use crate::text::{chars_of, debug_string, debug_text, decimal, decimal_chars, string_of};
use vstd::prelude::*;
use vstd::string::StringExecFns;

verus! {

/// The rule that opens a report: an empty line, then sixty equals signs.
pub const BANNER: &'static str =
    "\n============================================================";

/// How many characters of a content the report shows.
pub const PREVIEW_LEN: usize = 100;

/// The beginning of a content: its first hundred characters, or all of
/// it where it has fewer.
pub open spec fn preview(content: Seq<char>) -> Seq<char> {
    if content.len() <= PREVIEW_LEN {
        content
    } else {
        content.take(PREVIEW_LEN as int)
    }
}

/// The lines that open the report on `total` documents.
pub open spec fn heading(total: nat) -> Seq<Seq<char>> {
    seq![
        BANNER@,
        "System Information:"@,
        "Total documents in knowledge base: "@ + decimal(total),
    ]
}

/// The lines that report one document: its key, the beginning of its
/// content, where it comes from with the name of the source written as
/// `Debug` writes a string, and an empty line.
pub open spec fn entry(document: DocumentView) -> Seq<Seq<char>> {
    seq![
        "- Document ID: "@ + document.id,
        "  Content preview: "@ + preview(document.content) + "..."@,
        "  Metadata: DocumentMetaData { index: "@ + decimal(document.metadata.index)
            + ", source: "@ + debug_text(document.metadata.source) + " }"@,
        Seq::<char>::empty(),
    ]
}

/// The lines that report the documents, one entry after the other.
pub open spec fn entries(docs: Seq<DocumentView>) -> Seq<Seq<char>>
    decreases docs.len(),
{
    if docs.len() == 0 {
        Seq::empty()
    } else {
        entries(docs.drop_last()) + entry(docs.last())
    }
}

/// The report on the knowledge base, line by line.
pub open spec fn report(docs: Seq<DocumentView>) -> Seq<Seq<char>> {
    heading(docs.len()) + entries(docs)
}

/// The beginning of `content` that the report shows.
pub fn content_preview(content: &str) -> (r: String)
    ensures
        r@ == preview(content@),
{
    let all = chars_of(content);
    if all.len() <= PREVIEW_LEN {
        return string_of(&all);
    }
    let mut head: Vec<char> = Vec::new();
    let mut i: usize = 0;
    while i < PREVIEW_LEN
        invariant
            i <= PREVIEW_LEN,
            PREVIEW_LEN < all.len(),
            head@ == all@.take(i as int),
        decreases PREVIEW_LEN - i,
    {
        head.push(all[i]);
        assert(all@.take(i + 1) =~= all@.take(i as int).push(all@[i as int]));
        i = i + 1;
    }
    string_of(&head)
}

/// The lines that report one document.
fn entry_lines(document: &Document) -> (r: Vec<String>)
    ensures
        r.deep_view() == entry(document@),
{
    let mut key = "- Document ID: ".to_string();
    key.append(document.id.as_str());
    let mut content = "  Content preview: ".to_string();
    content.append(content_preview(document.content.as_str()).as_str());
    content.append("...");
    let mut origin = "  Metadata: DocumentMetaData { index: ".to_string();
    origin.append(string_of(&decimal_chars(document.metadata.index as u64)).as_str());
    origin.append(", source: ");
    origin.append(debug_string(document.metadata.source.as_str()).as_str());
    origin.append(" }");
    let mut out: Vec<String> = Vec::new();
    out.push(key);
    out.push(content);
    out.push(origin);
    out.push(String::new());
    assert(out.deep_view() =~= entry(document@));
    out
}

/// Reports on the knowledge base: a heading with the number of
/// documents, then for each document its key, the beginning of its
/// content and where it comes from. The result holds the lines to print.
pub fn info(all_docs: &Vec<Document>) -> (r: Vec<String>)
    ensures
        r.deep_view() == report(all_docs.deep_view()),
{
    let mut out: Vec<String> = Vec::new();
    out.push(BANNER.to_string());
    out.push("System Information:".to_string());
    let mut total = "Total documents in knowledge base: ".to_string();
    total.append(string_of(&decimal_chars(all_docs.len() as u64)).as_str());
    out.push(total);
    assert(out.deep_view() =~= heading(all_docs.deep_view().len()));
    let mut i: usize = 0;
    while i < all_docs.len()
        invariant
            i <= all_docs.len(),
            out.deep_view() == heading(all_docs.deep_view().len()) + entries(
                all_docs.deep_view().take(i as int),
            ),
        decreases all_docs.len() - i,
    {
        let ghost before = out.deep_view();
        let ghost docs = all_docs.deep_view();
        let mut lines = entry_lines(&all_docs[i]);
        let ghost added = lines.deep_view();
        out.append(&mut lines);
        proof {
            assert(out.deep_view() =~= before + added);
            assert(docs.take(i + 1).drop_last() =~= docs.take(i as int));
            assert(docs.take(i + 1).last() == all_docs[i as int]@);
            assert(before + added =~= heading(docs.len()) + (entries(docs.take(i as int)) + added));
        }
        i = i + 1;
    }
    proof {
        assert(all_docs.deep_view().take(all_docs.len() as int) =~= all_docs.deep_view());
    }
    out
}

} // verus!
