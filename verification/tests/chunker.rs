use rag_system::chunker::{chunk, load_pdf, CHUNK_SIZE};
use rag_system::RagError;

#[test]
fn five_letters_make_five_chunks() {
    assert_eq!(chunk("A B C D E", 3), vec!["A", "B", "C", "D", "E"]);
}

#[test]
fn text_that_fits_is_one_chunk() {
    // ten characters of tokens and three separators counted after them
    assert_eq!(chunk("  aaa bb\tccccc ", 13), vec!["aaa bb ccccc"]);
    // one short of that, the last token moves on
    assert_eq!(chunk("  aaa bb\tccccc ", 12), vec!["aaa bb", "ccccc"]);
}

#[test]
fn two_letters_need_four() {
    assert_eq!(chunk("A B", 4), vec!["A B"]);
    assert_eq!(chunk("A B", 3), vec!["A", "B"]);
}

#[test]
fn long_token_stays_whole() {
    assert_eq!(chunk("ab abcdefghij cd", 5), vec!["ab", "abcdefghij", "cd"]);
    assert_eq!(chunk("abcdefghij", 0), vec!["abcdefghij"]);
    assert_eq!(chunk("a b", 0), vec!["a", "b"]);
}

#[test]
fn no_tokens_no_chunks() {
    assert!(chunk("", 10).is_empty());
    assert!(chunk(" \n\t ", 10).is_empty());
}

#[test]
fn lengths_count_characters() {
    // four characters and a separator each, in more than four bytes
    assert_eq!(chunk("\u{e9}\u{e9}\u{e9}\u{e9} \u{e9}\u{e9}\u{e9}\u{e9}", 10), vec![
        "\u{e9}\u{e9}\u{e9}\u{e9} \u{e9}\u{e9}\u{e9}\u{e9}"
    ]);
}

#[test]
fn chunks_keep_the_tokens() {
    let text = "the quick  brown fox\njumps over the lazy dog and keeps running far away";
    for limit in 0..40 {
        let chunks = chunk(text, limit);
        let again: Vec<&str> = chunks.iter().flat_map(|c| c.split_whitespace()).collect();
        let tokens: Vec<&str> = text.split_whitespace().collect();
        assert_eq!(again, tokens);
        for c in &chunks {
            assert!(c.chars().count() + 1 <= limit || c.split_whitespace().count() == 1);
            assert_eq!(c.trim(), c);
        }
    }
}

#[test]
fn chunking_is_repeatable() {
    let text = "one two three four five six seven";
    assert_eq!(chunk(text, 9), chunk(text, 9));
}

#[test]
fn pages_are_chunked_as_one_text() {
    let pages = vec!["aa bb".to_string(), "".to_string(), "cc\n".to_string()];
    assert_eq!(load_pdf(&pages, 9), Ok(vec!["aa bb cc".to_string()]));
    assert_eq!(load_pdf(&pages, 6), Ok(vec!["aa bb".to_string(), "cc".to_string()]));
}

#[test]
fn document_without_words_is_refused() {
    assert_eq!(load_pdf(&Vec::new(), CHUNK_SIZE), Err(RagError::ValidationError));
    let blank = vec![" ".to_string(), "\n\n".to_string()];
    assert_eq!(load_pdf(&blank, CHUNK_SIZE), Err(RagError::ValidationError));
}

#[test]
fn ingestion_chunk_size() {
    assert_eq!(CHUNK_SIZE, 2000);
    let word = "x".repeat(999);
    let text = format!("{} {} {}", word, word, word);
    assert_eq!(chunk(&text, CHUNK_SIZE), vec![format!("{} {}", word, word), word.clone()]);
}
