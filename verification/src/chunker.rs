//! Splitting a document into chunks of bounded size.
//!
//! The text is read as a sequence of tokens. Tokens are packed greedily:
//! a chunk takes tokens for as long as its padded length, one separator
//! counted after every token, stays within the limit. A token is never
//! split, so a token that is too long for the limit forms a chunk alone.

use crate::error::RagError;
use crate::text::{
    all_tokens, append_chars, chars_of, is_token, join, lemma_tokens_are_tokens,
    lemma_tokens_of_join, space, split_tokens, string_of, tokens,
};
use vstd::prelude::*;

verus! {

/// The chunk size that documents are ingested with.
pub const CHUNK_SIZE: usize = 2000;

/// The length of a group of tokens when each is followed by one separator.
pub open spec fn padded_len(group: Seq<Seq<char>>) -> nat
    decreases group.len(),
{
    if group.len() == 0 {
        0
    } else {
        padded_len(group.drop_last()) + group.last().len() + 1
    }
}

/// The elements of `parts`, one after the other.
pub open spec fn concat<A>(parts: Seq<Seq<A>>) -> Seq<A>
    decreases parts.len(),
{
    if parts.len() == 0 {
        Seq::empty()
    } else {
        concat(parts.drop_last()) + parts.last()
    }
}

/// One step of greedy packing. The state pairs the groups that are closed
/// with the group that is open. A token that no longer fits closes the
/// open group and opens the next; an empty open group takes any token.
pub open spec fn pack_step(
    state: (Seq<Seq<Seq<char>>>, Seq<Seq<char>>),
    token: Seq<char>,
    limit: nat,
) -> (Seq<Seq<Seq<char>>>, Seq<Seq<char>>) {
    if state.1.len() > 0 && padded_len(state.1) + token.len() + 1 > limit {
        (state.0.push(state.1), seq![token])
    } else {
        (state.0, state.1.push(token))
    }
}

/// Greedy packing of `ts`, token by token, started in `state`.
pub open spec fn pack_from(
    state: (Seq<Seq<Seq<char>>>, Seq<Seq<char>>),
    ts: Seq<Seq<char>>,
    limit: nat,
) -> (Seq<Seq<Seq<char>>>, Seq<Seq<char>>)
    decreases ts.len(),
{
    if ts.len() == 0 {
        state
    } else {
        pack_step(pack_from(state, ts.drop_last(), limit), ts.last(), limit)
    }
}

/// The groups that a packing state stands for once the tokens have ended.
pub open spec fn closed(state: (Seq<Seq<Seq<char>>>, Seq<Seq<char>>)) -> Seq<Seq<Seq<char>>> {
    if state.1.len() > 0 {
        state.0.push(state.1)
    } else {
        state.0
    }
}

/// The groups of consecutive tokens that greedy packing forms.
pub open spec fn groups(ts: Seq<Seq<char>>, limit: nat) -> Seq<Seq<Seq<char>>> {
    closed(pack_from((Seq::empty(), Seq::empty()), ts, limit))
}

/// Each group joined by single spaces.
pub open spec fn joined(gs: Seq<Seq<Seq<char>>>) -> Seq<Seq<char>> {
    Seq::new(gs.len(), |k: int| join(gs[k], space()))
}

/// The chunks of a token sequence: its groups, each joined by single spaces.
pub open spec fn chunks_of(ts: Seq<Seq<char>>, limit: nat) -> Seq<Seq<char>> {
    joined(groups(ts, limit))
}

/// The tokens of each text, in one sequence.
pub open spec fn tokens_of_all(texts: Seq<Seq<char>>) -> Seq<Seq<char>>
    decreases texts.len(),
{
    if texts.len() == 0 {
        Seq::empty()
    } else {
        tokens_of_all(texts.drop_last()) + tokens(texts.last())
    }
}

/// A group respects the limit, or holds one token that cannot be split.
pub open spec fn is_bounded(group: Seq<Seq<char>>, limit: nat) -> bool {
    group.len() > 0 && (padded_len(group) <= limit || group.len() == 1)
}

/// What holds of a packing state whatever has been packed: the groups
/// are bounded, and only the very first state has an empty open group.
pub open spec fn is_packing(state: (Seq<Seq<Seq<char>>>, Seq<Seq<char>>), limit: nat) -> bool {
    &&& forall|j: int| 0 <= j < state.0.len() ==> is_bounded(#[trigger] state.0[j], limit)
    &&& state.1.len() > 0 ==> is_bounded(state.1, limit)
    &&& state.1.len() == 0 ==> state.0.len() == 0
}

/// Joining by single spaces yields one character less than the padded
/// length.
pub proof fn lemma_join_len(group: Seq<Seq<char>>)
    requires
        group.len() > 0,
    ensures
        join(group, space()).len() + 1 == padded_len(group),
    decreases group.len(),
{
    if group.len() == 1 {
        assert(group.drop_last().len() == 0);
        assert(padded_len(group.drop_last()) == 0);
    } else {
        lemma_join_len(group.drop_last());
    }
}

/// Packing a concatenation is packing its second part from where the
/// packing of the first part ended.
pub proof fn lemma_pack_concat(
    state: (Seq<Seq<Seq<char>>>, Seq<Seq<char>>),
    a: Seq<Seq<char>>,
    b: Seq<Seq<char>>,
    limit: nat,
)
    ensures
        pack_from(state, a + b, limit) == pack_from(pack_from(state, a, limit), b, limit),
    decreases b.len(),
{
    if b.len() == 0 {
        assert(a + b =~= a);
    } else {
        lemma_pack_concat(state, a, b.drop_last(), limit);
        assert((a + b).drop_last() =~= a + b.drop_last());
        assert((a + b).last() == b.last());
    }
}

/// Concatenation takes one more part at the end.
pub proof fn lemma_concat_push<A>(parts: Seq<Seq<A>>, last: Seq<A>)
    ensures
        concat(parts.push(last)) == concat(parts) + last,
{
    assert(parts.push(last).drop_last() =~= parts);
}

/// Packing keeps every token, in order, and forms bounded groups.
pub proof fn lemma_pack_keeps(
    state: (Seq<Seq<Seq<char>>>, Seq<Seq<char>>),
    ts: Seq<Seq<char>>,
    limit: nat,
)
    requires
        is_packing(state, limit),
    ensures
        is_packing(pack_from(state, ts, limit), limit),
        concat(closed(pack_from(state, ts, limit))) == concat(closed(state)) + ts,
        ts.len() > 0 ==> pack_from(state, ts, limit).1.len() > 0,
    decreases ts.len(),
{
    if ts.len() == 0 {
        assert(concat(closed(state)) + ts =~= concat(closed(state)));
    } else {
        let head = ts.drop_last();
        let t = ts.last();
        lemma_pack_keeps(state, head, limit);
        let mid = pack_from(state, head, limit);
        let end = pack_step(mid, t, limit);
        let base = concat(closed(state));
        assert(concat(closed(mid)) == base + head);
        assert(head + seq![t] =~= ts);
        if mid.1.len() > 0 && padded_len(mid.1) + t.len() + 1 > limit {
            lemma_concat_push(closed(mid), seq![t]);
            assert(seq![t].drop_last() =~= Seq::<Seq<char>>::empty());
            assert(closed(end) == closed(mid).push(seq![t]));
            assert((base + head) + seq![t] =~= base + ts);
        } else {
            assert(mid.1.push(t).drop_last() =~= mid.1);
            lemma_concat_push(mid.0, mid.1.push(t));
            assert(closed(end) == mid.0.push(mid.1.push(t)));
            if mid.1.len() > 0 {
                lemma_concat_push(mid.0, mid.1);
                assert(concat(mid.0) + mid.1.push(t) =~= (concat(mid.0) + mid.1) + seq![t]);
            } else {
                assert(concat(mid.0) + mid.1.push(t) =~= concat(mid.0) + seq![t]);
            }
            assert((base + head) + seq![t] =~= base + ts);
        }
    }
}

/// The groups of a token sequence are bounded, none is empty, and one
/// after the other they are the token sequence.
pub proof fn lemma_groups_partition(ts: Seq<Seq<char>>, limit: nat)
    ensures
        concat(groups(ts, limit)) == ts,
        forall|j: int| 0 <= j < groups(ts, limit).len() ==> is_bounded(
            #[trigger] groups(ts, limit)[j],
            limit,
        ),
        ts.len() > 0 <==> groups(ts, limit).len() > 0,
{
    let start: (Seq<Seq<Seq<char>>>, Seq<Seq<char>>) = (Seq::empty(), Seq::empty());
    lemma_pack_keeps(start, ts, limit);
    assert(Seq::<Seq<char>>::empty() + ts =~= ts);
}

/// Tokens whose padded length is within the limit stay in the open group.
pub proof fn lemma_pack_fits(ts: Seq<Seq<char>>, limit: nat)
    requires
        padded_len(ts) <= limit,
    ensures
        pack_from((Seq::empty(), Seq::empty()), ts, limit) == (Seq::<Seq<Seq<char>>>::empty(), ts),
    decreases ts.len(),
{
    if ts.len() == 0 {
        assert(ts =~= Seq::<Seq<char>>::empty());
    } else {
        lemma_pack_fits(ts.drop_last(), limit);
        assert(ts.drop_last().push(ts.last()) =~= ts);
    }
}

/// Text that fits makes one chunk: where the tokens, each counted with
/// one separator, are within the limit, the only chunk holds them all,
/// in order.
pub proof fn lemma_single_chunk(ts: Seq<Seq<char>>, limit: nat)
    requires
        ts.len() > 0,
        padded_len(ts) <= limit,
    ensures
        groups(ts, limit) == seq![ts],
        chunks_of(ts, limit) == seq![join(ts, space())],
{
    lemma_pack_fits(ts, limit);
    assert(groups(ts, limit) =~= seq![ts]);
    assert(chunks_of(ts, limit) =~= seq![join(ts, space())]);
}

/// Where a concatenation is made of tokens, so is each of its parts.
pub proof fn lemma_parts_of_tokens(gs: Seq<Seq<Seq<char>>>)
    requires
        all_tokens(concat(gs)),
    ensures
        forall|j: int| 0 <= j < gs.len() ==> all_tokens(#[trigger] gs[j]),
    decreases gs.len(),
{
    if gs.len() > 0 {
        let head = concat(gs.drop_last());
        let whole = concat(gs);
        assert forall|k: int| 0 <= k < head.len() implies is_token(#[trigger] head[k]) by {
            assert(head[k] == whole[k]);
        }
        lemma_parts_of_tokens(gs.drop_last());
        assert forall|j: int| 0 <= j < gs.len() implies all_tokens(#[trigger] gs[j]) by {
            if j == gs.len() - 1 {
                assert forall|k: int| 0 <= k < gs[j].len() implies is_token(
                    #[trigger] gs[j][k],
                ) by {
                    assert(gs[j][k] == whole[head.len() + k]);
                }
            } else {
                assert(gs[j] == gs.drop_last()[j]);
            }
        }
    }
}

/// Groups of tokens, each joined by single spaces, hold the tokens of
/// the groups.
pub proof fn lemma_tokens_of_joined(gs: Seq<Seq<Seq<char>>>)
    requires
        forall|j: int| 0 <= j < gs.len() ==> all_tokens(#[trigger] gs[j]),
    ensures
        tokens_of_all(joined(gs)) == concat(gs),
    decreases gs.len(),
{
    if gs.len() > 0 {
        let head = gs.drop_last();
        assert forall|j: int| 0 <= j < head.len() implies all_tokens(#[trigger] head[j]) by {
            assert(head[j] == gs[j]);
        }
        lemma_tokens_of_joined(head);
        assert(joined(gs).drop_last() =~= joined(head));
        assert(all_tokens(gs[gs.len() - 1]));
        lemma_tokens_of_join(gs.last());
    }
}

/// Chunking loses and adds no token: the tokens of the chunks, chunk
/// after chunk, are the tokens that were chunked.
pub proof fn lemma_chunks_round_trip(ts: Seq<Seq<char>>, limit: nat)
    requires
        all_tokens(ts),
    ensures
        tokens_of_all(chunks_of(ts, limit)) == ts,
{
    lemma_groups_partition(ts, limit);
    lemma_parts_of_tokens(groups(ts, limit));
    lemma_tokens_of_joined(groups(ts, limit));
}

/// An open group that is already full is closed by whatever comes next,
/// and stays as it is.
pub proof fn lemma_pack_full(
    state: (Seq<Seq<Seq<char>>>, Seq<Seq<char>>),
    rest: Seq<Seq<char>>,
    limit: nat,
)
    requires
        state.1.len() > 0,
        padded_len(state.1) >= limit,
    ensures
        closed(pack_from(state, rest, limit)).len() > state.0.len(),
        closed(pack_from(state, rest, limit))[state.0.len() as int] == state.1,
        pack_from(state, rest, limit).1.len() > 0,
        rest.len() > 0 ==> pack_from(state, rest, limit).0.len() > state.0.len(),
    decreases rest.len(),
{
    if rest.len() > 0 {
        lemma_pack_full(state, rest.drop_last(), limit);
    }
}

/// A token of at least `limit` characters is never split and shares its
/// chunk with no other token: one of the chunks is that token.
pub proof fn lemma_long_token_alone(ts: Seq<Seq<char>>, limit: nat, k: int)
    requires
        0 <= k < ts.len(),
        ts[k].len() >= limit,
    ensures
        groups(ts, limit).contains(seq![ts[k]]),
        chunks_of(ts, limit).contains(ts[k]),
{
    let start: (Seq<Seq<Seq<char>>>, Seq<Seq<char>>) = (Seq::empty(), Seq::empty());
    let front = ts.take(k + 1);
    let rest = ts.skip(k + 1);
    assert(front + rest =~= ts);
    lemma_pack_concat(start, front, rest, limit);
    assert(front.drop_last() =~= ts.take(k));
    assert(front.last() == ts[k]);
    let before = pack_from(start, ts.take(k), limit);
    let at = pack_step(before, ts[k], limit);
    assert(at == pack_from(start, front, limit));
    assert(at.1 =~= seq![ts[k]]);
    assert(seq![ts[k]].drop_last() =~= Seq::<Seq<char>>::empty());
    assert(padded_len(seq![ts[k]].drop_last()) == 0);
    assert(padded_len(seq![ts[k]]) == ts[k].len() + 1);
    lemma_pack_full(at, rest, limit);
    let gs = groups(ts, limit);
    let n = at.0.len() as int;
    assert(gs[n] == seq![ts[k]]);
    assert(chunks_of(ts, limit)[n] == join(gs[n], space()));
}

/// A chunk is shorter than the limit unless it is a single token: each
/// chunk holds fewer than `limit` characters, or is one of the tokens.
pub proof fn lemma_chunk_bounded(ts: Seq<Seq<char>>, limit: nat, j: int)
    requires
        0 <= j < chunks_of(ts, limit).len(),
    ensures
        chunks_of(ts, limit)[j].len() < limit || (groups(ts, limit)[j].len() == 1 && chunks_of(
            ts,
            limit,
        )[j] == groups(ts, limit)[j][0]),
{
    lemma_groups_partition(ts, limit);
    let g = groups(ts, limit)[j];
    assert(is_bounded(g, limit));
    lemma_join_len(g);
}

/// Every closed group was full: it had no room for the token that
/// opened the group after it.
pub open spec fn is_greedy(state: (Seq<Seq<Seq<char>>>, Seq<Seq<char>>), limit: nat) -> bool {
    &&& forall|j: int|
        0 <= j && j + 1 < state.0.len() ==> padded_len(#[trigger] state.0[j]) + state.0[j
            + 1][0].len() + 1 > limit
    &&& state.0.len() > 0 && state.1.len() > 0 ==> padded_len(state.0.last()) + state.1[0].len()
        + 1 > limit
}

/// Packing closes a group only when the next token does not fit.
pub proof fn lemma_pack_greedy(
    state: (Seq<Seq<Seq<char>>>, Seq<Seq<char>>),
    ts: Seq<Seq<char>>,
    limit: nat,
)
    requires
        is_packing(state, limit),
        is_greedy(state, limit),
    ensures
        is_greedy(pack_from(state, ts, limit), limit),
    decreases ts.len(),
{
    if ts.len() > 0 {
        lemma_pack_greedy(state, ts.drop_last(), limit);
        lemma_pack_keeps(state, ts.drop_last(), limit);
        let mid = pack_from(state, ts.drop_last(), limit);
        let end = pack_step(mid, ts.last(), limit);
        if mid.1.len() > 0 && padded_len(mid.1) + ts.last().len() + 1 > limit {
            assert forall|j: int| 0 <= j && j + 1 < end.0.len() implies padded_len(
                #[trigger] end.0[j],
            ) + end.0[j + 1][0].len() + 1 > limit by {
                if j + 1 < mid.0.len() {
                    assert(end.0[j] == mid.0[j]);
                }
            }
        }
    }
}

/// Chunks are as large as they can be: each group but the last had no
/// room for the first token of the group after it.
pub proof fn lemma_groups_greedy(ts: Seq<Seq<char>>, limit: nat, j: int)
    requires
        0 <= j,
        j + 1 < groups(ts, limit).len(),
    ensures
        padded_len(groups(ts, limit)[j]) + groups(ts, limit)[j + 1][0].len() + 1 > limit,
{
    let start: (Seq<Seq<Seq<char>>>, Seq<Seq<char>>) = (Seq::empty(), Seq::empty());
    lemma_pack_greedy(start, ts, limit);
    lemma_pack_keeps(start, ts, limit);
    let end = pack_from(start, ts, limit);
    if j + 1 < end.0.len() {
        assert(groups(ts, limit)[j] == end.0[j]);
    }
}

/// `gs` cuts `ts` into chunks as greedy packing must: the groups, one
/// after the other, are `ts`; each is bounded; and each but the last had
/// no room for the first token of the group after it.
pub open spec fn is_chunking(ts: Seq<Seq<char>>, limit: nat, gs: Seq<Seq<Seq<char>>>) -> bool {
    &&& concat(gs) == ts
    &&& forall|j: int| 0 <= j < gs.len() ==> is_bounded(#[trigger] gs[j], limit)
    &&& forall|j: int|
        0 <= j && j + 1 < gs.len() ==> padded_len(#[trigger] gs[j]) + gs[j + 1][0].len() + 1
            > limit
}

/// The padded length of a group grows with the group.
pub proof fn lemma_padded_len_concat(a: Seq<Seq<char>>, b: Seq<Seq<char>>)
    ensures
        padded_len(a + b) == padded_len(a) + padded_len(b),
    decreases b.len(),
{
    if b.len() == 0 {
        assert(a + b =~= a);
    } else {
        lemma_padded_len_concat(a, b.drop_last());
        assert((a + b).drop_last() =~= a + b.drop_last());
        assert((a + b).last() == b.last());
    }
}

/// Tokens that fit into the open group are taken by it.
pub proof fn lemma_pack_fill(
    done: Seq<Seq<Seq<char>>>,
    open: Seq<Seq<char>>,
    more: Seq<Seq<char>>,
    limit: nat,
)
    requires
        padded_len(open + more) <= limit,
    ensures
        pack_from((done, open), more, limit) == (done, open + more),
    decreases more.len(),
{
    if more.len() == 0 {
        assert(open + more =~= open);
    } else {
        let head = more.drop_last();
        lemma_padded_len_concat(open, more);
        lemma_padded_len_concat(open, head);
        lemma_pack_fill(done, open, head, limit);
        assert((open + head).push(more.last()) =~= open + more);
    }
}

/// The chunks cut as greedy packing must are cut by greedy packing: the
/// open group is the last of them, the closed groups are the others.
pub proof fn lemma_pack_of_chunking(gs: Seq<Seq<Seq<char>>>, limit: nat)
    requires
        gs.len() > 0,
        is_chunking(concat(gs), limit, gs),
    ensures
        pack_from((Seq::empty(), Seq::empty()), concat(gs), limit) == (gs.drop_last(), gs.last()),
    decreases gs.len(),
{
    let start: (Seq<Seq<Seq<char>>>, Seq<Seq<char>>) = (Seq::empty(), Seq::empty());
    let head = gs.drop_last();
    let g = gs.last();
    assert(is_bounded(gs[gs.len() - 1], limit));
    let first = seq![g[0]];
    let more = g.skip(1);
    assert(first + more =~= g);
    assert(first.drop_last() =~= Seq::<Seq<char>>::empty());
    if g.len() == 1 {
        assert(more =~= Seq::<Seq<char>>::empty());
    }
    if head.len() == 0 {
        assert(concat(head) =~= Seq::<Seq<char>>::empty());
        assert(concat(gs) =~= g);
        assert(pack_from(start, first, limit) == pack_step(
            pack_from(start, first.drop_last(), limit),
            g[0],
            limit,
        ));
        lemma_pack_concat(start, first, more, limit);
        if more.len() > 0 {
            lemma_pack_fill(Seq::empty(), first, more, limit);
        }
        assert(head =~= Seq::<Seq<Seq<char>>>::empty());
    } else {
        assert forall|j: int| 0 <= j < head.len() implies is_bounded(#[trigger] head[j], limit) by {
            assert(head[j] == gs[j]);
        }
        assert forall|j: int| 0 <= j && j + 1 < head.len() implies padded_len(#[trigger] head[j])
            + head[j + 1][0].len() + 1 > limit by {
            assert(head[j] == gs[j]);
            assert(head[j + 1] == gs[j + 1]);
        }
        lemma_pack_of_chunking(head, limit);
        let at_head = pack_from(start, concat(head), limit);
        assert(at_head == (head.drop_last(), head.last()));
        assert(concat(gs) =~= concat(head) + first + more);
        lemma_pack_concat(start, concat(head) + first, more, limit);
        lemma_pack_concat(start, concat(head), first, limit);
        assert(pack_from(at_head, first, limit) == pack_step(
            pack_from(at_head, first.drop_last(), limit),
            g[0],
            limit,
        ));
        let j = gs.len() - 2;
        assert(gs[j] == head.last());
        assert(padded_len(gs[j]) + gs[j + 1][0].len() + 1 > limit);
        assert(is_bounded(head[head.len() - 1], limit));
        assert(head.drop_last().push(head.last()) =~= head);
        if more.len() > 0 {
            lemma_pack_fill(head, first, more, limit);
        }
    }
}

/// There is one way to cut a token sequence as greedy packing must: the
/// groups that cut it so are the groups of the sequence.
pub proof fn lemma_chunking_unique(ts: Seq<Seq<char>>, limit: nat, gs: Seq<Seq<Seq<char>>>)
    requires
        is_chunking(ts, limit, gs),
    ensures
        gs == groups(ts, limit),
{
    if gs.len() == 0 {
        assert(gs =~= groups(ts, limit));
    } else {
        lemma_pack_of_chunking(gs, limit);
        assert(is_bounded(gs[gs.len() - 1], limit));
        assert(gs.drop_last().push(gs.last()) =~= gs);
    }
}

/// The groups of a token sequence cut it as greedy packing must.
pub proof fn lemma_groups_are_chunking(ts: Seq<Seq<char>>, limit: nat)
    ensures
        is_chunking(ts, limit, groups(ts, limit)),
{
    lemma_groups_partition(ts, limit);
    assert forall|j: int| 0 <= j && j + 1 < groups(ts, limit).len() implies padded_len(
        #[trigger] groups(ts, limit)[j],
    ) + groups(ts, limit)[j + 1][0].len() + 1 > limit by {
        lemma_groups_greedy(ts, limit, j);
    }
}

/// The packing state after the first `k` of `words`.
pub open spec fn packed(words: Seq<Seq<char>>, k: int, limit: nat) -> (
    Seq<Seq<Seq<char>>>,
    Seq<Seq<char>>,
) {
    pack_from((Seq::empty(), Seq::empty()), words.take(k), limit)
}

/// Packs `words` into chunks.
fn pack(words: &Vec<Vec<char>>, limit: usize) -> (r: Vec<String>)
    ensures
        r.deep_view() == chunks_of(words.deep_view(), limit as nat),
{
    let mut out: Vec<String> = Vec::new();
    let mut buf: Vec<char> = Vec::new();
    let mut open = false;
    let mut k: usize = 0;
    assert(out.deep_view() =~= joined(Seq::empty()));
    while k < words.len()
        invariant
            k <= words.len(),
            out.deep_view() == joined(packed(words.deep_view(), k as int, limit as nat).0),
            open == (packed(words.deep_view(), k as int, limit as nat).1.len() > 0),
            open ==> buf@ == join(packed(words.deep_view(), k as int, limit as nat).1, space()),
            !open ==> buf@.len() == 0,
        decreases words.len() - k,
    {
        let word = &words[k];
        let ghost all = words.deep_view();
        let ghost state = packed(all, k as int, limit as nat);
        proof {
            assert(all.take(k + 1).drop_last() =~= all.take(k as int));
            assert(all.take(k + 1).last() == word@);
            assert(packed(all, k + 1, limit as nat) == pack_step(state, word@, limit as nat));
            if open {
                lemma_join_len(state.1);
            }
        }
        let fits = limit >= 2 && buf.len() <= limit - 2 && word.len() <= limit - 2 - buf.len();
        if open && !fits {
            let ghost before = out.deep_view();
            out.push(string_of(&buf));
            assert(out.deep_view() =~= before.push(buf@));
            assert(joined(state.0.push(state.1)) =~= joined(state.0).push(join(state.1, space())));
            buf = Vec::new();
            append_chars(&mut buf, word);
            assert(buf@ =~= word@);
            assert(seq![word@].drop_last() =~= Seq::<Seq<char>>::empty());
        } else {
            if open {
                buf.push(' ');
            }
            let ghost sofar = buf@;
            append_chars(&mut buf, word);
            proof {
                assert(state.1.push(word@).drop_last() =~= state.1);
                if open {
                    assert(sofar =~= join(state.1, space()) + space());
                } else {
                    assert(buf@ =~= word@);
                }
            }
        }
        open = true;
        k = k + 1;
    }
    proof {
        assert(words.deep_view().take(words.len() as int) =~= words.deep_view());
    }
    if open {
        let ghost state = packed(words.deep_view(), k as int, limit as nat);
        let ghost before = out.deep_view();
        out.push(string_of(&buf));
        assert(out.deep_view() =~= before.push(buf@));
        assert(joined(state.0.push(state.1)) =~= joined(state.0).push(join(state.1, space())));
    }
    out
}

/// Splits `text` into chunks: its tokens, packed greedily in their order,
/// each chunk joined by single spaces. A chunk holds as many tokens as
/// fit when one separator is counted after every token; a token that
/// does not fit alone is a chunk of its own. Text without tokens has no
/// chunks. The chunks keep every token in its place, text that fits is
/// one chunk, and a token of at least `chunk_size_limit` characters is a
/// chunk by itself.
pub fn chunk(text: &str, chunk_size_limit: usize) -> (r: Vec<String>)
    ensures
        r.deep_view() == chunks_of(tokens(text@), chunk_size_limit as nat),
        r.len() == 0 <==> tokens(text@).len() == 0,
        tokens_of_all(r.deep_view()) == tokens(text@),
        tokens(text@).len() > 0 && padded_len(tokens(text@)) <= chunk_size_limit ==> r.deep_view()
            == seq![join(tokens(text@), space())],
        forall|k: int|
            0 <= k < tokens(text@).len() && (#[trigger] tokens(text@)[k]).len() >= chunk_size_limit
                ==> r.deep_view().contains(tokens(text@)[k]),
{
    let raw = chars_of(text);
    let words = split_tokens(&raw);
    proof {
        let ts = tokens(text@);
        let limit = chunk_size_limit as nat;
        lemma_groups_partition(ts, limit);
        lemma_tokens_are_tokens(text@);
        lemma_chunks_round_trip(ts, limit);
        if ts.len() > 0 && padded_len(ts) <= limit {
            lemma_single_chunk(ts, limit);
        }
        assert forall|k: int| 0 <= k < ts.len() && (#[trigger] ts[k]).len() >= limit implies chunks_of(
            ts,
            limit,
        ).contains(ts[k]) by {
            lemma_long_token_alone(ts, limit, k);
        }
    }
    let out = pack(&words, chunk_size_limit);
    assert(out.deep_view().len() == out.len());
    out
}

/// Chunks the text of a document that comes in pieces, such as the pages
/// of a PDF file. The tokens of all pieces are packed as one sequence, so
/// a chunk may span pieces. A document without any token is refused with
/// `ValidationError`.
pub fn load_pdf(pages: &Vec<String>, chunk_size_limit: usize) -> (r: Result<Vec<String>, RagError>)
    ensures
        r is Err <==> tokens_of_all(pages.deep_view()).len() == 0,
        r matches Err(e) ==> e == RagError::ValidationError,
        r matches Ok(chunks) ==> chunks.deep_view() == chunks_of(
            tokens_of_all(pages.deep_view()),
            chunk_size_limit as nat,
        ),
{
    let mut words: Vec<Vec<char>> = Vec::new();
    let mut i: usize = 0;
    assert(words.deep_view() =~= tokens_of_all(pages.deep_view().take(0)));
    while i < pages.len()
        invariant
            i <= pages.len(),
            words.deep_view() == tokens_of_all(pages.deep_view().take(i as int)),
        decreases pages.len() - i,
    {
        let raw = chars_of(pages[i].as_str());
        let mut found = split_tokens(&raw);
        let ghost before = words.deep_view();
        let ghost added = found.deep_view();
        proof {
            let all = pages.deep_view();
            assert(all.take(i + 1).drop_last() =~= all.take(i as int));
            assert(all.take(i + 1).last() == pages[i as int]@);
        }
        words.append(&mut found);
        assert(words.deep_view() =~= before + added);
        i = i + 1;
    }
    proof {
        assert(pages.deep_view().take(pages.len() as int) =~= pages.deep_view());
        lemma_groups_partition(words.deep_view(), chunk_size_limit as nat);
    }
    if words.len() == 0 {
        return Err(RagError::ValidationError);
    }
    let out = pack(&words, chunk_size_limit);
    Ok(out)
}

} // verus!
