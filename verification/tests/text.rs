use rag_system::text::{
    append_chars, char_is_control, char_is_whitespace, chars_of, join_words, split_tokens,
    string_of,
};

#[test]
fn character_classes_agree_with_the_standard_library() {
    let mut n: u32 = 0;
    while n <= 0x10ffff {
        if let Some(c) = char::from_u32(n) {
            assert_eq!(char_is_control(c), c.is_control(), "control U+{:04X}", n);
            assert_eq!(char_is_whitespace(c), c.is_whitespace(), "space U+{:04X}", n);
        }
        n += 1;
    }
}

#[test]
fn chars_and_back() {
    let s = "h\u{e9}llo \u{1f600}";
    let chars = chars_of(s);
    assert_eq!(chars, s.chars().collect::<Vec<char>>());
    assert_eq!(string_of(&chars), s);
    assert_eq!(string_of(&Vec::new()), "");
}

#[test]
fn tokens_of_text() {
    let words = split_tokens(&chars_of("  one\ttwo\n\nthree  "));
    let words: Vec<String> = words.iter().map(|w| string_of(w)).collect();
    assert_eq!(words, vec!["one", "two", "three"]);
    assert!(split_tokens(&chars_of(" \t ")).is_empty());
    assert!(split_tokens(&chars_of("")).is_empty());
}

#[test]
fn joining_words() {
    let words = vec![chars_of("a"), chars_of("bc"), chars_of("d")];
    assert_eq!(string_of(&join_words(&words, &chars_of(", "))), "a, bc, d");
    assert_eq!(string_of(&join_words(&words[..1].to_vec(), &chars_of(", "))), "a");
    assert_eq!(string_of(&join_words(&Vec::new(), &chars_of(", "))), "");
}

#[test]
fn splitting_undoes_joining() {
    let words = vec![chars_of("alpha"), chars_of("b"), chars_of("gamma")];
    let text = join_words(&words, &chars_of(" "));
    assert_eq!(split_tokens(&text), words);
}

#[test]
fn appending_chars() {
    let mut out = chars_of("ab");
    append_chars(&mut out, &chars_of("cd"));
    assert_eq!(string_of(&out), "abcd");
}
