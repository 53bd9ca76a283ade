//! The questions on the sample documents.

use vstd::prelude::*;

verus! {

/// The questions, in the order in which they are put.
pub open spec fn questions() -> Seq<Seq<char>> {
    seq![
        "What is Rust programming language?"@,
        "How does SurrealDB work?"@,
        "What is Ollama used for?"@,
        "What are vector databases?"@,
        "How can I run LLMs locally?"@,
    ]
}

/// The questions to put to a knowledge base of the sample documents.
pub fn query() -> (r: Vec<String>)
    ensures
        r.deep_view() == questions(),
{
    let mut out: Vec<String> = Vec::new();
    out.push("What is Rust programming language?".to_string());
    out.push("How does SurrealDB work?".to_string());
    out.push("What is Ollama used for?".to_string());
    out.push("What are vector databases?".to_string());
    out.push("How can I run LLMs locally?".to_string());
    assert(out.deep_view() =~= questions());
    out
}

} // verus!
