//! Cleaning of extracted text before it is chunked, embedded or stored.
//!
//! Null characters are fatal to many storage back ends, and other control
//! characters carry no meaning in running text. The cleaners here remove or
//! replace them and normalise white space.

use crate::text::{
    append_chars, char_is_control, chars_of, is_control, is_whitespace, join, join_words,
    lemma_tokens_are_tokens, lemma_tokens_of_join, scan_from, space, split_tokens, string_of,
    tokens,
};
use std::borrow::Cow;
use vstd::prelude::*;

verus! {

/// Control characters that text may keep until white space is normalised:
/// line feed, carriage return and tab.
pub open spec fn is_layout(c: char) -> bool {
    c == '\n' || c == '\r' || c == '\t'
}

/// What one raw character becomes: a null character becomes `nul`, any
/// other control character that is not layout becomes one space, and
/// every other character stays.
pub open spec fn replacement(c: char, nul: Seq<char>) -> Seq<char> {
    if c == '\0' {
        nul
    } else if is_control(c) && !is_layout(c) {
        seq![' ']
    } else {
        seq![c]
    }
}

/// `s` with every character replaced as `replacement` says.
pub open spec fn scrubbed(s: Seq<char>, nul: Seq<char>) -> Seq<char>
    decreases s.len(),
{
    if s.len() == 0 {
        Seq::empty()
    } else {
        scrubbed(s.drop_last(), nul) + replacement(s.last(), nul)
    }
}

/// Cleaned text with a chosen stand-in for null characters: the tokens of
/// the scrubbed text, joined by single spaces.
pub open spec fn sanitized_with(s: Seq<char>, nul: Seq<char>) -> Seq<char> {
    join(tokens(scrubbed(s, nul)), space())
}

/// Cleaned text: null characters removed, other control characters turned
/// into spaces, runs of white space collapsed to one space, and no white
/// space at either end.
pub open spec fn sanitized(s: Seq<char>) -> Seq<char> {
    sanitized_with(s, Seq::empty())
}

/// `s` without its null characters.
pub open spec fn without_nuls(s: Seq<char>) -> Seq<char> {
    s.filter(|c: char| c != '\0')
}

/// No character of `w` is a control character.
pub open spec fn is_plain(w: Seq<char>) -> bool {
    forall|i: int| 0 <= i < w.len() ==> !is_control(#[trigger] w[i])
}

/// Every control character of `w` is white space.
pub open spec fn is_tame(w: Seq<char>) -> bool {
    forall|i: int| 0 <= i < w.len() ==> !is_control(#[trigger] w[i]) || is_whitespace(w[i])
}

/// Every element of `ts` is plain.
pub open spec fn all_plain(ts: Seq<Seq<char>>) -> bool {
    forall|k: int| 0 <= k < ts.len() ==> is_plain(#[trigger] ts[k])
}

/// Scrubbing with nothing in place of null characters leaves only
/// control characters that are white space.
pub proof fn lemma_scrubbed_is_tame(s: Seq<char>)
    ensures
        is_tame(scrubbed(s, Seq::empty())),
    decreases s.len(),
{
    if s.len() > 0 {
        lemma_scrubbed_is_tame(s.drop_last());
    }
}

/// Scrubbing changes nothing in text that has no control characters.
pub proof fn lemma_scrubbed_plain(s: Seq<char>, nul: Seq<char>)
    requires
        is_plain(s),
    ensures
        scrubbed(s, nul) == s,
    decreases s.len(),
{
    if s.len() > 0 {
        lemma_scrubbed_plain(s.drop_last(), nul);
        assert(!is_control(s[s.len() - 1]));
        assert(s.drop_last() + seq![s.last()] =~= s);
    }
}

/// A scan of tame text collects plain tokens, provided it started that way.
pub proof fn lemma_scan_tame(state: (Seq<Seq<char>>, Seq<char>), s: Seq<char>)
    requires
        is_tame(s),
        all_plain(state.0),
        is_plain(state.1),
    ensures
        all_plain(scan_from(state, s).0),
        is_plain(scan_from(state, s).1),
    decreases s.len(),
{
    if s.len() > 0 {
        let head = s.drop_last();
        assert forall|i: int| 0 <= i < head.len() implies !is_control(#[trigger] head[i])
            || is_whitespace(head[i]) by {
            assert(head[i] == s[i]);
        }
        lemma_scan_tame(state, head);
        assert(!is_control(s[s.len() - 1]) || is_whitespace(s[s.len() - 1]));
    }
}

/// Plain parts joined by a plain separator are plain.
pub proof fn lemma_join_plain(parts: Seq<Seq<char>>, sep: Seq<char>)
    requires
        all_plain(parts),
        is_plain(sep),
    ensures
        is_plain(join(parts, sep)),
    decreases parts.len(),
{
    if parts.len() == 1 {
        assert(is_plain(parts[0]));
    } else if parts.len() > 1 {
        let head = parts.drop_last();
        assert forall|k: int| 0 <= k < head.len() implies is_plain(#[trigger] head[k]) by {
            assert(head[k] == parts[k]);
        }
        lemma_join_plain(head, sep);
        assert(is_plain(parts[parts.len() - 1]));
    }
}

/// Cleaned text holds no control character, so in particular no null
/// character, whatever the raw text held.
pub proof fn lemma_sanitized_is_plain(s: Seq<char>)
    ensures
        is_plain(sanitized(s)),
        !sanitized(s).contains('\0'),
{
    let scrub = scrubbed(s, Seq::empty());
    lemma_scrubbed_is_tame(s);
    lemma_scan_tame((Seq::empty(), Seq::empty()), scrub);
    lemma_join_plain(tokens(scrub), space());
}

/// Cleaning is idempotent: cleaning cleaned text changes nothing.
pub proof fn lemma_sanitized_idempotent(s: Seq<char>)
    ensures
        sanitized(sanitized(s)) == sanitized(s),
{
    let ts = tokens(scrubbed(s, Seq::empty()));
    let once = sanitized(s);
    lemma_sanitized_is_plain(s);
    lemma_scrubbed_plain(once, Seq::empty());
    lemma_tokens_are_tokens(scrubbed(s, Seq::empty()));
    lemma_tokens_of_join(ts);
}

/// Null characters that stand for nothing: cleaning with an empty stand-in
/// is plain cleaning.
pub proof fn lemma_sanitized_with_nothing(s: Seq<char>)
    ensures
        sanitized_with(s, Seq::empty()) == sanitized(s),
{
}

/// Removes every null character and changes nothing else.
pub fn _sanitize_chunk(input: &str) -> (r: String)
    ensures
        r@ == without_nuls(input@),
        !r@.contains('\0'),
{
    let raw = chars_of(input);
    let kept = strip_nuls(&raw);
    string_of(&kept)
}

/// The characters of `raw` that are not null, in order.
fn strip_nuls(raw: &Vec<char>) -> (r: Vec<char>)
    ensures
        r@ == without_nuls(raw@),
        !r@.contains('\0'),
{
    let mut out: Vec<char> = Vec::new();
    let mut i: usize = 0;
    while i < raw.len()
        invariant
            i <= raw.len(),
            out@ == without_nuls(raw@.take(i as int)),
            forall|j: int| 0 <= j < out.len() ==> out@[j] != '\0',
        decreases raw.len() - i,
    {
        let c = raw[i];
        proof {
            reveal(Seq::filter);
            assert(raw@.take(i + 1).drop_last() =~= raw@.take(i as int));
        }
        if c != '\0' {
            out.push(c);
        }
        i = i + 1;
    }
    proof {
        assert(raw@.take(raw.len() as int) =~= raw@);
    }
    out
}

/// Tells whether `raw` holds a null character.
fn has_nul(raw: &Vec<char>) -> (r: bool)
    ensures
        r == raw@.contains('\0'),
{
    let mut i: usize = 0;
    while i < raw.len()
        invariant
            i <= raw.len(),
            forall|j: int| 0 <= j < i ==> raw@[j] != '\0',
        decreases raw.len() - i,
    {
        if raw[i] == '\0' {
            return true;
        }
        i = i + 1;
    }
    false
}

/// Removes null characters, borrowing the input where there are none.
pub fn _sanitize_chunk_cow<'a>(input: &'a str) -> (r: Cow<'a, str>)
    ensures
        r@ == without_nuls(input@),
        r is Borrowed <==> !input@.contains('\0'),
        r matches Cow::Borrowed(kept) ==> kept@ == input@,
{
    let raw = chars_of(input);
    if has_nul(&raw) {
        let kept = strip_nuls(&raw);
        Cow::Owned(string_of(&kept))
    } else {
        proof {
            lemma_without_nuls_keeps_clean(input@);
        }
        Cow::Borrowed(input)
    }
}

/// Text without null characters has none to lose.
pub proof fn lemma_without_nuls_keeps_clean(s: Seq<char>)
    requires
        !s.contains('\0'),
    ensures
        without_nuls(s) == s,
    decreases s.len(),
{
    reveal(Seq::filter);
    if s.len() > 0 {
        let head = s.drop_last();
        assert forall|j: int| 0 <= j < head.len() implies head[j] != '\0' by {
            assert(head[j] == s[j]);
            assert(s.contains(s[j]));
        }
        assert(!head.contains('\0'));
        lemma_without_nuls_keeps_clean(head);
        assert(s.contains(s[s.len() - 1]));
        assert(head.push(s.last()) =~= s);
    }
}

/// What a lossy decoding of `bytes` as UTF-8 yields: the decoded text,
/// with U+FFFD in place of each ill-formed part.
pub uninterp spec fn utf8_lossy(bytes: Seq<u8>) -> Seq<char>;

/// Decodes bytes as UTF-8, lossily. Trusted: the body is
/// `String::from_utf8_lossy`, whose result depends on the bytes alone; the
/// standard library documents that well-formed input is returned as it is.
#[verifier::external_body]
fn decode_lossy(input: &[u8]) -> (r: String)
    ensures
        r@ == utf8_lossy(input@),
        vstd::utf8::valid_utf8(input@) ==> r@ == vstd::utf8::decode_utf8(input@),
{
    String::from_utf8_lossy(input).into_owned()
}

/// Decodes bytes that may not be well-formed UTF-8 and removes the null
/// characters of the result.
pub fn _ensure_valid_utf8(input: &[u8]) -> (r: String)
    ensures
        r@ == without_nuls(utf8_lossy(input@)),
        vstd::utf8::valid_utf8(input@) ==> r@ == without_nuls(vstd::utf8::decode_utf8(input@)),
        !r@.contains('\0'),
{
    let text = decode_lossy(input);
    _sanitize_chunk(text.as_str())
}

/// Replaces every character of `raw` as `replacement` says.
fn scrub(raw: &Vec<char>, nul: &Vec<char>) -> (r: Vec<char>)
    ensures
        r@ == scrubbed(raw@, nul@),
{
    let mut out: Vec<char> = Vec::new();
    let mut i: usize = 0;
    while i < raw.len()
        invariant
            i <= raw.len(),
            out@ == scrubbed(raw@.take(i as int), nul@),
        decreases raw.len() - i,
    {
        let c = raw[i];
        proof {
            assert(raw@.take(i + 1).drop_last() =~= raw@.take(i as int));
        }
        let ghost before = out@;
        if c == '\0' {
            append_chars(&mut out, nul);
        } else if char_is_control(c) && c != '\n' && c != '\r' && c != '\t' {
            out.push(' ');
            assert(out@ =~= before + seq![' ']);
        } else {
            out.push(c);
            assert(out@ =~= before + seq![c]);
        }
        i = i + 1;
    }
    proof {
        assert(raw@.take(raw.len() as int) =~= raw@);
    }
    out
}

/// The tokens of `scrubbed` text joined by single spaces.
fn normalize(scrubbed_text: &Vec<char>) -> (r: String)
    ensures
        r@ == join(tokens(scrubbed_text@), space()),
{
    let words = split_tokens(scrubbed_text);
    let mut sep: Vec<char> = Vec::new();
    sep.push(' ');
    assert(sep@ =~= space());
    let joined = join_words(&words, &sep);
    string_of(&joined)
}

/// Cleans raw text: removes null characters, turns every other control
/// character but line feed, carriage return and tab into a space, then
/// collapses each run of white space into one space and drops white space
/// at both ends. The result holds no control character.
pub fn sanitize_chunk_comprehensive(input: &str) -> (r: String)
    ensures
        r@ == sanitized(input@),
        is_plain(r@),
        !r@.contains('\0'),
{
    let raw = chars_of(input);
    let nothing: Vec<char> = Vec::new();
    let text = scrub(&raw, &nothing);
    proof {
        assert(nothing@ =~= Seq::<char>::empty());
        lemma_sanitized_is_plain(input@);
    }
    normalize(&text)
}

/// Cleans raw text as `sanitize_chunk_comprehensive` does, but puts
/// `replace_nul_with` in place of each null character before white space
/// is normalised.
pub fn _sanitize_chunk_advanced(input: &str, replace_nul_with: &str) -> (r: String)
    ensures
        r@ == sanitized_with(input@, replace_nul_with@),
{
    let raw = chars_of(input);
    let nul = chars_of(replace_nul_with);
    let text = scrub(&raw, &nul);
    normalize(&text)
}

} // verus!
