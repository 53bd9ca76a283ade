//! Ranking by similarity.
//!
//! A similarity is carried as an integer in millionths, rounded up, so
//! that the cosine of two embeddings, which lies between -1 and 1, lies
//! between -1,000,000 and 1,000,000 and stays above every floor that it
//! exceeds. The candidates of a search are numbered in the order in
//! which they were written; a ranking is a sequence of those numbers.

use vstd::prelude::*;

verus! {

/// Candidates that a search returns unless told otherwise.
pub const DEFAULT_LIMIT: usize = 5;

/// The similarity that a candidate must exceed unless told otherwise: one
/// half, in millionths.
pub const DEFAULT_MIN_SCORE: i64 = 500_000;

/// Candidate `i` comes before candidate `j`: it is more similar, or as
/// similar and written earlier.
pub open spec fn outranks(scores: Seq<i64>, i: int, j: int) -> bool {
    scores[i] > scores[j] || (scores[i] == scores[j] && i < j)
}

/// Candidate `i` exists and is more similar than the floor.
pub open spec fn qualifies(scores: Seq<i64>, min_score: i64, i: int) -> bool {
    0 <= i < scores.len() && scores[i] > min_score
}

/// Candidate `j` is among `picks`.
pub open spec fn is_picked(picks: Seq<usize>, j: int) -> bool {
    exists|a: int| 0 <= a < picks.len() && #[trigger] picks[a] as int == j
}

/// `picks` is the ranking of the candidates with these scores: at most
/// `limit` of them, each above the floor, the best first, and none left
/// out that is above the floor unless the limit is reached and every pick
/// comes before it.
pub open spec fn is_ranking(scores: Seq<i64>, min_score: i64, limit: nat, picks: Seq<usize>) -> bool {
    &&& picks.len() <= limit
    &&& forall|a: int| 0 <= a < picks.len() ==> qualifies(scores, min_score, #[trigger] picks[a] as int)
    &&& forall|a: int, b: int|
        0 <= a < b < picks.len() ==> outranks(scores, #[trigger] picks[a] as int, #[trigger] picks[b] as int)
    &&& forall|j: int|
        #![trigger qualifies(scores, min_score, j)]
        qualifies(scores, min_score, j) && !is_picked(picks, j) ==> picks.len() == limit
    &&& forall|j: int, a: int|
        #![trigger qualifies(scores, min_score, j), picks[a]]
        qualifies(scores, min_score, j) && !is_picked(picks, j) && 0 <= a < picks.len()
            ==> outranks(scores, picks[a] as int, j)
}

/// The ranking of the candidates with these scores.
pub open spec fn ranking(scores: Seq<i64>, min_score: i64, limit: nat) -> Seq<usize> {
    choose|picks: Seq<usize>| is_ranking(scores, min_score, limit, picks)
}

/// Two rankings of the same candidates agree on their common positions.
proof fn lemma_rankings_agree(
    scores: Seq<i64>,
    min_score: i64,
    limit: nat,
    p: Seq<usize>,
    q: Seq<usize>,
    a: int,
)
    requires
        is_ranking(scores, min_score, limit, p),
        is_ranking(scores, min_score, limit, q),
        0 <= a < p.len(),
        a < q.len(),
    ensures
        p[a] == q[a],
    decreases a,
{
    if a > 0 {
        lemma_rankings_agree(scores, min_score, limit, p, q, a - 1);
    }
    assert forall|b: int| 0 <= b < a implies p[b] == q[b] by {
        lemma_rankings_agree(scores, min_score, limit, p, q, b);
    }
    let x = p[a];
    let y = q[a];
    assert(qualifies(scores, min_score, x as int));
    assert(qualifies(scores, min_score, y as int));
    if x != y {
        lemma_not_before(scores, min_score, limit, q, p, a);
        lemma_not_before(scores, min_score, limit, p, q, a);
    }
}

/// Where the ranking `p` agrees with the ranking `q` before position `a`,
/// what `q` holds at `a` does not come before what `p` holds there.
proof fn lemma_not_before(
    scores: Seq<i64>,
    min_score: i64,
    limit: nat,
    p: Seq<usize>,
    q: Seq<usize>,
    a: int,
)
    requires
        is_ranking(scores, min_score, limit, p),
        is_ranking(scores, min_score, limit, q),
        0 <= a < p.len(),
        a < q.len(),
        forall|b: int| 0 <= b < a ==> p[b] == q[b],
    ensures
        !outranks(scores, q[a] as int, p[a] as int),
{
    let x = q[a];
    assert(qualifies(scores, min_score, x as int));
    if x != p[a] && outranks(scores, x as int, p[a] as int) {
        if is_picked(p, x as int) {
            let c = choose|c: int| 0 <= c < p.len() && p[c] as int == x as int;
            if c < a {
                assert(outranks(scores, q[c] as int, q[a] as int));
            } else {
                assert(outranks(scores, p[a] as int, p[c] as int));
            }
        } else {
            assert(outranks(scores, p[a] as int, x as int));
        }
    }
}

/// There is one ranking at most: two sequences that both rank the same
/// candidates are the same sequence.
pub proof fn lemma_ranking_unique(
    scores: Seq<i64>,
    min_score: i64,
    limit: nat,
    p: Seq<usize>,
    q: Seq<usize>,
)
    requires
        is_ranking(scores, min_score, limit, p),
        is_ranking(scores, min_score, limit, q),
    ensures
        p == q,
{
    lemma_not_shorter(scores, min_score, limit, p, q);
    lemma_not_shorter(scores, min_score, limit, q, p);
    assert forall|a: int| 0 <= a < p.len() implies p[a] == q[a] by {
        lemma_rankings_agree(scores, min_score, limit, p, q, a);
    }
    assert(p =~= q);
}

/// A ranking is not shorter than another ranking of the same candidates.
proof fn lemma_not_shorter(
    scores: Seq<i64>,
    min_score: i64,
    limit: nat,
    p: Seq<usize>,
    q: Seq<usize>,
)
    requires
        is_ranking(scores, min_score, limit, p),
        is_ranking(scores, min_score, limit, q),
    ensures
        p.len() >= q.len(),
{
    if p.len() < q.len() {
        let n = p.len() as int;
        let y = q[n];
        assert(qualifies(scores, min_score, y as int));
        assert(is_picked(p, y as int));
        let c = choose|c: int| 0 <= c < p.len() && p[c] as int == y as int;
        lemma_rankings_agree(scores, min_score, limit, p, q, c);
        assert(outranks(scores, q[c] as int, q[n] as int));
    }
}

/// What a function has ranked is the ranking.
pub proof fn lemma_ranking_is(scores: Seq<i64>, min_score: i64, limit: nat, picks: Seq<usize>)
    requires
        is_ranking(scores, min_score, limit, picks),
    ensures
        ranking(scores, min_score, limit) == picks,
{
    lemma_ranking_unique(scores, min_score, limit, ranking(scores, min_score, limit), picks);
}

/// Candidate `j` is still to be picked: it is above the floor and comes
/// after the last pick.
pub open spec fn is_open(scores: Seq<i64>, min_score: i64, picks: Seq<usize>, j: int) -> bool {
    qualifies(scores, min_score, j) && (picks.len() > 0 ==> outranks(
        scores,
        picks.last() as int,
        j,
    ))
}

/// The best candidate that is still to be picked, if there is one.
fn next_pick(scores: &Vec<i64>, min_score: i64, picks: &Vec<usize>) -> (r: Option<usize>)
    requires
        picks.len() > 0 ==> picks@.last() < scores.len(),
    ensures
        r matches Some(b) ==> is_open(scores@, min_score, picks@, b as int) && forall|j: int|
            #![trigger is_open(scores@, min_score, picks@, j)]
            is_open(scores@, min_score, picks@, j) && j != b ==> outranks(scores@, b as int, j),
        r is None ==> forall|j: int|
            #![trigger is_open(scores@, min_score, picks@, j)]
            !is_open(scores@, min_score, picks@, j),
{
    let mut best: Option<usize> = None;
    let mut j: usize = 0;
    while j < scores.len()
        invariant
            j <= scores.len(),
            picks.len() > 0 ==> picks@.last() < scores.len(),
            best matches Some(b) ==> b < j && is_open(scores@, min_score, picks@, b as int)
                && forall|c: int|
                #![trigger is_open(scores@, min_score, picks@, c)]
                0 <= c < j && is_open(scores@, min_score, picks@, c) && c != b ==> outranks(
                    scores@,
                    b as int,
                    c,
                ),
            best is None ==> forall|c: int|
                #![trigger is_open(scores@, min_score, picks@, c)]
                0 <= c < j ==> !is_open(scores@, min_score, picks@, c),
        decreases scores.len() - j,
    {
        let score = scores[j];
        let after_last = if picks.len() > 0 {
            let last = picks[picks.len() - 1];
            scores[last] > score || (scores[last] == score && last < j)
        } else {
            true
        };
        if score > min_score && after_last {
            match best {
                Some(b) => {
                    if score > scores[b] {
                        best = Some(j);
                    }
                },
                None => {
                    best = Some(j);
                },
            }
        }
        j = j + 1;
    }
    best
}

/// Ranks candidates by their scores: those whose score exceeds
/// `min_score`, the most similar first, candidates of equal score in the
/// order in which they were written, and no more than `limit` of them.
pub fn rank(scores: &Vec<i64>, limit: usize, min_score: i64) -> (r: Vec<usize>)
    ensures
        is_ranking(scores@, min_score, limit as nat, r@),
        r@ == ranking(scores@, min_score, limit as nat),
{
    let mut picks: Vec<usize> = Vec::new();
    let mut complete = false;
    while picks.len() < limit && !complete
        invariant
            picks.len() <= limit,
            forall|a: int| 0 <= a < picks.len() ==> qualifies(scores@, min_score, #[trigger] picks@[a] as int),
            forall|a: int, b: int|
                0 <= a < b < picks.len() ==> outranks(
                    scores@,
                    #[trigger] picks@[a] as int,
                    #[trigger] picks@[b] as int,
                ),
            forall|j: int, a: int|
                #![trigger qualifies(scores@, min_score, j), picks@[a]]
                qualifies(scores@, min_score, j) && !is_picked(picks@, j) && 0 <= a
                    < picks.len() ==> outranks(scores@, picks@[a] as int, j),
            complete ==> forall|j: int|
                #![trigger qualifies(scores@, min_score, j)]
                qualifies(scores@, min_score, j) ==> is_picked(picks@, j),
        decreases limit - picks.len() + if complete { 0int } else { 1int },
    {
        proof {
            if picks.len() > 0 {
                assert(qualifies(scores@, min_score, picks@[picks.len() - 1] as int));
            }
        }
        let ghost before = picks@;
        match next_pick(scores, min_score, &picks) {
            None => {
                complete = true;
                proof {
                    assert forall|j: int|
                        #![trigger qualifies(scores@, min_score, j)]
                        qualifies(scores@, min_score, j) implies is_picked(before, j) by {
                        if !is_picked(before, j) {
                            assert(!is_open(scores@, min_score, before, j));
                            if before.len() > 0 {
                                assert(outranks(scores@, before[before.len() - 1] as int, j));
                            }
                        }
                    }
                }
            },
            Some(b) => {
                picks.push(b);
                proof {
                    lemma_pick_extends(scores@, min_score, before, b);
                }
            },
        }
    }
    proof {
        lemma_ranking_is(scores@, min_score, limit as nat, picks@);
    }
    picks
}

/// What has been picked so far: candidates above the floor, the best
/// first, each coming before every candidate above the floor that was
/// not picked.
pub open spec fn is_partial(scores: Seq<i64>, min_score: i64, picks: Seq<usize>) -> bool {
    &&& forall|a: int| 0 <= a < picks.len() ==> qualifies(scores, min_score, #[trigger] picks[a] as int)
    &&& forall|a: int, b: int|
        0 <= a < b < picks.len() ==> outranks(scores, #[trigger] picks[a] as int, #[trigger] picks[b] as int)
    &&& forall|j: int, a: int|
        #![trigger qualifies(scores, min_score, j), picks[a]]
        qualifies(scores, min_score, j) && !is_picked(picks, j) && 0 <= a < picks.len()
            ==> outranks(scores, picks[a] as int, j)
}

/// Picking the best open candidate keeps the picks in order.
proof fn lemma_pick_extends(scores: Seq<i64>, min_score: i64, picks: Seq<usize>, b: usize)
    requires
        is_partial(scores, min_score, picks),
        is_open(scores, min_score, picks, b as int),
        forall|j: int|
            #![trigger is_open(scores, min_score, picks, j)]
            is_open(scores, min_score, picks, j) && j != b ==> outranks(scores, b as int, j),
    ensures
        is_partial(scores, min_score, picks.push(b)),
{
    let next = picks.push(b);
    lemma_open_is_unpicked(scores, min_score, picks, b as int);
    assert forall|a: int, c: int| 0 <= a < c < next.len() implies outranks(
        scores,
        #[trigger] next[a] as int,
        #[trigger] next[c] as int,
    ) by {
        if c == picks.len() {
            assert(outranks(scores, picks[a] as int, b as int));
        }
    }
    assert forall|j: int, a: int|
        #![trigger qualifies(scores, min_score, j), next[a]]
        qualifies(scores, min_score, j) && !is_picked(next, j) && 0 <= a
            < next.len() implies outranks(scores, next[a] as int, j) by {
        assert(j != b) by {
            if j == b {
                assert(next[picks.len() as int] == b);
            }
        }
        if is_picked(picks, j) {
            let c = choose|c: int| 0 <= c < picks.len() && picks[c] as int == j;
            assert(next[c] as int == j);
        }
        if a < picks.len() {
            assert(outranks(scores, picks[a] as int, j));
        } else {
            if picks.len() > 0 {
                assert(outranks(scores, picks[picks.len() - 1] as int, j));
            }
            assert(is_open(scores, min_score, picks, j));
        }
    }
}

/// A candidate that is still to be picked has not been picked.
proof fn lemma_open_is_unpicked(scores: Seq<i64>, min_score: i64, picks: Seq<usize>, j: int)
    requires
        is_partial(scores, min_score, picks),
        is_open(scores, min_score, picks, j),
    ensures
        !is_picked(picks, j),
{
    if is_picked(picks, j) {
        let c = choose|c: int| 0 <= c < picks.len() && picks[c] as int == j;
        if c < picks.len() - 1 {
            assert(outranks(scores, picks[c] as int, picks[picks.len() - 1] as int));
        }
    }
}

} // verus!
