//! Characters, whitespace-separated tokens and joining: the vocabulary that
//! the cleaning and chunking contracts are written in.

use vstd::prelude::*;

verus! {

/// Unicode control characters (general category Cc).
pub open spec fn is_control(c: char) -> bool {
    c <= '\u{1f}' || ('\u{7f}' <= c && c <= '\u{9f}')
}

/// Characters with the Unicode `White_Space` property.
pub open spec fn is_whitespace(c: char) -> bool {
    ||| ('\u{9}' <= c && c <= '\u{d}')
    ||| c == ' '
    ||| c == '\u{85}'
    ||| c == '\u{a0}'
    ||| c == '\u{1680}'
    ||| ('\u{2000}' <= c && c <= '\u{200a}')
    ||| c == '\u{2028}'
    ||| c == '\u{2029}'
    ||| c == '\u{202f}'
    ||| c == '\u{205f}'
    ||| c == '\u{3000}'
}

/// A sequence of characters without white space.
pub open spec fn is_solid(w: Seq<char>) -> bool {
    forall|i: int| 0 <= i < w.len() ==> !is_whitespace(#[trigger] w[i])
}

/// A token: at least one character, none of them white space.
pub open spec fn is_token(w: Seq<char>) -> bool {
    w.len() > 0 && is_solid(w)
}

/// Every element of `ts` is a token.
pub open spec fn all_tokens(ts: Seq<Seq<char>>) -> bool {
    forall|k: int| 0 <= k < ts.len() ==> is_token(#[trigger] ts[k])
}

/// One step of a left-to-right scan. The state pairs the tokens that are
/// complete with the token in progress: white space closes the token in
/// progress, any other character extends it.
pub open spec fn scan_step(state: (Seq<Seq<char>>, Seq<char>), c: char) -> (
    Seq<Seq<char>>,
    Seq<char>,
) {
    if is_whitespace(c) {
        if state.1.len() > 0 {
            (state.0.push(state.1), Seq::empty())
        } else {
            state
        }
    } else {
        (state.0, state.1.push(c))
    }
}

/// The scan of `s`, character by character, started in `state`.
pub open spec fn scan_from(state: (Seq<Seq<char>>, Seq<char>), s: Seq<char>) -> (
    Seq<Seq<char>>,
    Seq<char>,
)
    decreases s.len(),
{
    if s.len() == 0 {
        state
    } else {
        scan_step(scan_from(state, s.drop_last()), s.last())
    }
}

/// The tokens that a scan state stands for once the input has ended.
pub open spec fn close(state: (Seq<Seq<char>>, Seq<char>)) -> Seq<Seq<char>> {
    if state.1.len() > 0 {
        state.0.push(state.1)
    } else {
        state.0
    }
}

/// The maximal runs of characters of `s` that hold no white space, in order.
pub open spec fn tokens(s: Seq<char>) -> Seq<Seq<char>> {
    close(scan_from((Seq::empty(), Seq::empty()), s))
}

/// The elements of `parts` in order, with `sep` between neighbours.
pub open spec fn join(parts: Seq<Seq<char>>, sep: Seq<char>) -> Seq<char>
    decreases parts.len(),
{
    if parts.len() == 0 {
        Seq::empty()
    } else if parts.len() == 1 {
        parts[0]
    } else {
        join(parts.drop_last(), sep) + sep + parts.last()
    }
}

/// The single space that separates tokens in cleaned text and in chunks.
pub open spec fn space() -> Seq<char> {
    seq![' ']
}

/// Scanning a concatenation is scanning its second part from where the
/// scan of the first part ended.
pub proof fn lemma_scan_concat(state: (Seq<Seq<char>>, Seq<char>), a: Seq<char>, b: Seq<char>)
    ensures
        scan_from(state, a + b) == scan_from(scan_from(state, a), b),
    decreases b.len(),
{
    if b.len() == 0 {
        assert(a + b =~= a);
    } else {
        lemma_scan_concat(state, a, b.drop_last());
        assert((a + b).drop_last() =~= a + b.drop_last());
        assert((a + b).last() == b.last());
    }
}

/// A run without white space extends the token in progress and nothing else.
pub proof fn lemma_scan_solid(state: (Seq<Seq<char>>, Seq<char>), w: Seq<char>)
    requires
        is_solid(w),
    ensures
        scan_from(state, w) == (state.0, state.1 + w),
    decreases w.len(),
{
    if w.len() == 0 {
        assert(state.1 + w =~= state.1);
    } else {
        lemma_scan_solid(state, w.drop_last());
        assert(!is_whitespace(w[w.len() - 1]));
        assert((state.1 + w.drop_last()).push(w.last()) =~= state.1 + w);
    }
}

/// Whatever a scan collects is made of tokens, provided it started that way.
pub proof fn lemma_scan_keeps_tokens(state: (Seq<Seq<char>>, Seq<char>), s: Seq<char>)
    requires
        all_tokens(state.0),
        is_solid(state.1),
    ensures
        all_tokens(scan_from(state, s).0),
        is_solid(scan_from(state, s).1),
    decreases s.len(),
{
    if s.len() > 0 {
        lemma_scan_keeps_tokens(state, s.drop_last());
    }
}

/// Every token of a text is non-empty and free of white space.
pub proof fn lemma_tokens_are_tokens(s: Seq<char>)
    ensures
        all_tokens(tokens(s)),
{
    lemma_scan_keeps_tokens((Seq::empty(), Seq::empty()), s);
}

/// Tokens joined by single spaces scan back into themselves: the last one
/// is in progress, the others are complete.
pub proof fn lemma_scan_of_join(ts: Seq<Seq<char>>)
    requires
        ts.len() > 0,
        all_tokens(ts),
    ensures
        scan_from((Seq::empty(), Seq::empty()), join(ts, space())) == (ts.drop_last(), ts.last()),
    decreases ts.len(),
{
    let start: (Seq<Seq<char>>, Seq<char>) = (Seq::empty(), Seq::empty());
    if ts.len() == 1 {
        assert(is_token(ts[0]));
        lemma_scan_solid(start, ts[0]);
        assert(Seq::<char>::empty() + ts[0] =~= ts[0]);
        assert(ts.drop_last() =~= Seq::<Seq<char>>::empty());
    } else {
        let head = ts.drop_last();
        assert forall|k: int| 0 <= k < head.len() implies is_token(#[trigger] head[k]) by {
            assert(head[k] == ts[k]);
        }
        lemma_scan_of_join(head);
        let text = join(head, space());
        lemma_scan_concat(start, text + space(), ts.last());
        lemma_scan_concat(start, text, space());
        let after_text = scan_from(start, text);
        assert(is_token(head[head.len() - 1]));
        assert(space().drop_last() =~= Seq::<char>::empty());
        assert(scan_from(after_text, space()) == scan_step(
            scan_from(after_text, space().drop_last()),
            ' ',
        ));
        assert(head.drop_last().push(head.last()) =~= head);
        assert(is_token(ts[ts.len() - 1]));
        lemma_scan_solid((head, Seq::empty()), ts.last());
        assert(Seq::<char>::empty() + ts.last() =~= ts.last());
    }
}

/// Splitting undoes joining: the tokens of tokens joined by single spaces
/// are those tokens.
pub proof fn lemma_tokens_of_join(ts: Seq<Seq<char>>)
    requires
        all_tokens(ts),
    ensures
        tokens(join(ts, space())) == ts,
{
    if ts.len() > 0 {
        lemma_scan_of_join(ts);
        assert(is_token(ts[ts.len() - 1]));
        assert(ts.drop_last().push(ts.last()) =~= ts);
    }
}

/// A scan that starts with complete tokens and none in progress keeps
/// them in front of what it collects.
pub proof fn lemma_scan_after(done: Seq<Seq<char>>, s: Seq<char>)
    ensures
        scan_from((done, Seq::empty()), s) == (
            done + scan_from((Seq::empty(), Seq::empty()), s).0,
            scan_from((Seq::empty(), Seq::empty()), s).1,
        ),
    decreases s.len(),
{
    let fresh = scan_from((Seq::<Seq<char>>::empty(), Seq::<char>::empty()), s);
    if s.len() == 0 {
        assert(done + fresh.0 =~= done);
    } else {
        lemma_scan_after(done, s.drop_last());
        let before = scan_from((Seq::<Seq<char>>::empty(), Seq::<char>::empty()), s.drop_last());
        if is_whitespace(s.last()) && before.1.len() > 0 {
            assert((done + before.0).push(before.1) =~= done + before.0.push(before.1));
        }
    }
}

/// White space separates: the tokens of a text around a white-space
/// character are the tokens before it, then the tokens after it.
pub proof fn lemma_tokens_around(a: Seq<char>, c: char, b: Seq<char>)
    requires
        is_whitespace(c),
    ensures
        tokens(a + seq![c] + b) == tokens(a) + tokens(b),
{
    let start: (Seq<Seq<char>>, Seq<char>) = (Seq::empty(), Seq::empty());
    lemma_scan_concat(start, a + seq![c], b);
    lemma_scan_concat(start, a, seq![c]);
    let at_a = scan_from(start, a);
    assert(seq![c].drop_last() =~= Seq::<char>::empty());
    assert(scan_from(at_a, seq![c]) == scan_step(scan_from(at_a, seq![c].drop_last()), c));
    assert(scan_from(start, a + seq![c]) == (tokens(a), Seq::<char>::empty()));
    lemma_scan_after(tokens(a), b);
    let at_b = scan_from(start, b);
    if at_b.1.len() > 0 {
        assert((tokens(a) + at_b.0).push(at_b.1) =~= tokens(a) + at_b.0.push(at_b.1));
    }
}

/// A run without white space is one token, and empty text has none.
pub proof fn lemma_tokens_of_token(w: Seq<char>)
    requires
        is_solid(w),
    ensures
        tokens(w) == if w.len() > 0 {
            seq![w]
        } else {
            Seq::<Seq<char>>::empty()
        },
{
    lemma_scan_solid((Seq::empty(), Seq::empty()), w);
    assert(Seq::<char>::empty() + w =~= w);
    if w.len() > 0 {
        assert(Seq::<Seq<char>>::empty().push(w) =~= seq![w]);
    }
}

/// Tells whether `c` is a control character.
pub fn char_is_control(c: char) -> (r: bool)
    ensures
        r == is_control(c),
{
    c <= '\u{1f}' || ('\u{7f}' <= c && c <= '\u{9f}')
}

/// Tells whether `c` is white space.
pub fn char_is_whitespace(c: char) -> (r: bool)
    ensures
        r == is_whitespace(c),
{
    ('\u{9}' <= c && c <= '\u{d}') || c == ' ' || c == '\u{85}' || c == '\u{a0}' || c == '\u{1680}'
        || ('\u{2000}' <= c && c <= '\u{200a}') || c == '\u{2028}' || c == '\u{2029}'
        || c == '\u{202f}' || c == '\u{205f}' || c == '\u{3000}'
}

/// The characters of `s`, in order.
pub fn chars_of(s: &str) -> (r: Vec<char>)
    ensures
        r@ == s@,
{
    let mut out: Vec<char> = Vec::new();
    for c in it: s.chars()
        invariant
            it.seq() == s@,
            out@ == s@.take(it.index()),
    {
        out.push(c);
    }
    out
}

/// Appends one character to a string. Trusted: the body is
/// `String::push`, which the standard library documents as appending the
/// given character to the end of the string.
#[verifier::external_body]
fn push_char(s: &mut String, c: char)
    ensures
        final(s)@ == old(s)@.push(c),
{
    s.push(c);
}

/// What the `Debug` formatting of the standard library makes of a
/// string: the text between double quotes, with quotes, backslashes and
/// characters that do not print written as escapes.
pub uninterp spec fn debug_text(text: Seq<char>) -> Seq<char>;

/// Writes a string as `Debug` does. Trusted: the body is the `Debug`
/// formatting of `str`, whose result depends on the text alone.
#[verifier::external_body]
pub(crate) fn debug_string(text: &str) -> (r: String)
    ensures
        r@ == debug_text(text@),
{
    format!("{:?}", text)
}

/// The string made of the characters `chars`, in order.
pub fn string_of(chars: &Vec<char>) -> (r: String)
    ensures
        r@ == chars@,
{
    let mut out = String::new();
    let mut i: usize = 0;
    while i < chars.len()
        invariant
            i <= chars.len(),
            out@ == chars@.take(i as int),
        decreases chars.len() - i,
    {
        push_char(&mut out, chars[i]);
        i = i + 1;
    }
    out
}

/// Splits `s` into its tokens.
pub fn split_tokens(s: &Vec<char>) -> (r: Vec<Vec<char>>)
    ensures
        r.deep_view() == tokens(s@),
{
    let mut done: Vec<Vec<char>> = Vec::new();
    let mut word: Vec<char> = Vec::new();
    let mut i: usize = 0;
    while i < s.len()
        invariant
            i <= s.len(),
            (done.deep_view(), word@) == scan_from((Seq::empty(), Seq::empty()), s@.take(i as int)),
        decreases s.len() - i,
    {
        let c = s[i];
        proof {
            assert(s@.take(i + 1).drop_last() =~= s@.take(i as int));
        }
        if char_is_whitespace(c) {
            if word.len() > 0 {
                let ghost before = done.deep_view();
                let ghost run = word@;
                assert(word.deep_view() =~= run);
                done.push(word);
                assert(done.deep_view() =~= before.push(run));
                word = Vec::new();
            }
        } else {
            word.push(c);
        }
        i = i + 1;
    }
    proof {
        assert(s@.take(s.len() as int) =~= s@);
    }
    if word.len() > 0 {
        let ghost before = done.deep_view();
        let ghost run = word@;
        assert(word.deep_view() =~= run);
        done.push(word);
        assert(done.deep_view() =~= before.push(run));
    }
    done
}

/// Joins `parts` with `sep` between neighbours.
pub fn join_words(parts: &Vec<Vec<char>>, sep: &Vec<char>) -> (r: Vec<char>)
    ensures
        r@ == join(parts.deep_view(), sep@),
{
    let mut out: Vec<char> = Vec::new();
    let mut k: usize = 0;
    while k < parts.len()
        invariant
            k <= parts.len(),
            out@ == join(parts.deep_view().take(k as int), sep@),
        decreases parts.len() - k,
    {
        let ghost head = parts.deep_view().take(k as int);
        let ghost next = parts.deep_view().take(k + 1);
        proof {
            assert(next.drop_last() =~= head);
            assert(next.last() == parts[k as int]@);
        }
        if k > 0 {
            append_chars(&mut out, sep);
        }
        append_chars(&mut out, &parts[k]);
        proof {
            if k == 0 {
                assert(out@ =~= parts[k as int]@);
            }
        }
        k = k + 1;
    }
    proof {
        assert(parts.deep_view().take(parts.len() as int) =~= parts.deep_view());
    }
    out
}

/// Appends the characters of `tail` to `out`.
pub fn append_chars(out: &mut Vec<char>, tail: &Vec<char>)
    ensures
        final(out)@ == old(out)@ + tail@,
{
    let mut i: usize = 0;
    while i < tail.len()
        invariant
            i <= tail.len(),
            out@ == old(out)@ + tail@.take(i as int),
        decreases tail.len() - i,
    {
        out.push(tail[i]);
        proof {
            assert(tail@.take(i + 1) =~= tail@.take(i as int).push(tail@[i as int]));
        }
        i = i + 1;
    }
    proof {
        assert(tail@.take(tail.len() as int) =~= tail@);
    }
}

/// The decimal digit for a number below ten.
pub open spec fn digit(d: nat) -> char {
    if d == 0 {
        '0'
    } else if d == 1 {
        '1'
    } else if d == 2 {
        '2'
    } else if d == 3 {
        '3'
    } else if d == 4 {
        '4'
    } else if d == 5 {
        '5'
    } else if d == 6 {
        '6'
    } else if d == 7 {
        '7'
    } else if d == 8 {
        '8'
    } else {
        '9'
    }
}

/// `n` in decimal, without leading zeros.
pub open spec fn decimal(n: nat) -> Seq<char>
    decreases n,
{
    if n < 10 {
        seq![digit(n)]
    } else {
        decimal(n / 10).push(digit(n % 10))
    }
}

/// The decimal digit for `d`.
fn digit_char(d: u64) -> (r: char)
    requires
        d < 10,
    ensures
        r == digit(d as nat),
{
    if d == 0 {
        '0'
    } else if d == 1 {
        '1'
    } else if d == 2 {
        '2'
    } else if d == 3 {
        '3'
    } else if d == 4 {
        '4'
    } else if d == 5 {
        '5'
    } else if d == 6 {
        '6'
    } else if d == 7 {
        '7'
    } else if d == 8 {
        '8'
    } else {
        '9'
    }
}

/// Writes `n` in decimal, without leading zeros.
pub fn decimal_chars(n: u64) -> (r: Vec<char>)
    ensures
        r@ == decimal(n as nat),
{
    let mut low: Vec<char> = Vec::new();
    let mut rest = n;
    while rest >= 10
        invariant
            decimal(n as nat) == decimal(rest as nat) + low@.reverse(),
        decreases rest,
    {
        let d = digit_char(rest % 10);
        proof {
            let tail = low@.reverse();
            assert(low@.push(d).reverse() =~= seq![d] + tail);
            assert(decimal((rest / 10) as nat).push(d) + tail =~= decimal((rest / 10) as nat) + (
            seq![d] + tail));
        }
        low.push(d);
        rest = rest / 10;
    }
    let mut out: Vec<char> = Vec::new();
    out.push(digit_char(rest));
    let mut k: usize = low.len();
    while k > 0
        invariant
            k <= low.len(),
            out@ == decimal(rest as nat) + low@.reverse().take(low.len() - k),
        decreases k,
    {
        k = k - 1;
        out.push(low[k]);
        proof {
            let rev = low@.reverse();
            assert(rev.take(low.len() - k) =~= rev.take(low.len() - k - 1).push(low@[k as int]));
        }
    }
    proof {
        assert(low@.reverse().take(low.len() as int) =~= low@.reverse());
    }
    out
}

} // verus!
