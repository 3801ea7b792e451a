//! Learning the merges: count the pairs of neighbours over all buffers, merge
//! the most frequent one, and again, until no pair occurs twice or the budget
//! is spent.

use vstd::prelude::*;
use std::collections::HashMap;
use crate::vocabulary::{
    apply_merges,
    byte_tokens,
    encode_spec,
    lemma_apply_merges_prefix,
    merge_pair,
    merge_stream,
    merged_token,
    merges_wf,
    tokens_of_bytes,
    Merge,
    Token,
};

verus! {

broadcast use vstd::std_specs::hash::group_hash_axioms;

/// The buffers as sequences of bytes.
pub open spec fn corpus_view(buffers: Seq<&[u8]>) -> Seq<Seq<u8>> {
    Seq::new(buffers.len(), |i: int| buffers[i]@)
}

/// The buffers as token streams, one token per byte.
pub open spec fn corpus_tokens(corpus: Seq<Seq<u8>>) -> Seq<Seq<Token>> {
    Seq::new(corpus.len(), |i: int| byte_tokens(corpus[i]))
}

/// How many of the positions below `upto` of the stream hold `a` followed by
/// `b`.
pub open spec fn pair_count_in(s: Seq<Token>, a: Token, b: Token, upto: int) -> nat
    decreases upto,
{
    if upto <= 0 {
        0
    } else {
        pair_count_in(s, a, b, upto - 1) + (if upto < s.len() && s[upto - 1] == a && s[upto] == b {
            1nat
        } else {
            0nat
        })
    }
}

/// How many positions of the stream hold `a` followed by `b`.
pub open spec fn stream_count(s: Seq<Token>, a: Token, b: Token) -> nat {
    pair_count_in(s, a, b, s.len() - 1)
}

/// How many positions of the first `upto` streams hold `a` followed by `b`.
pub open spec fn pair_count(streams: Seq<Seq<Token>>, a: Token, b: Token, upto: int) -> nat
    decreases upto,
{
    if upto <= 0 {
        0
    } else {
        pair_count(streams, a, b, upto - 1) + stream_count(streams[upto - 1], a, b)
    }
}

/// How many positions of all streams hold `a` followed by `b`.
pub open spec fn total_count(streams: Seq<Seq<Token>>, a: Token, b: Token) -> nat {
    pair_count(streams, a, b, streams.len() as int)
}

/// Stream `si` holds a pair of neighbours at `pi`.
pub open spec fn is_pair_position(streams: Seq<Seq<Token>>, si: int, pi: int) -> bool {
    0 <= si < streams.len() && 0 <= pi && pi + 1 < streams[si].len()
}

/// How often the pair that stands at `pi` of stream `si` occurs in all
/// streams.
pub open spec fn count_at(streams: Seq<Seq<Token>>, si: int, pi: int) -> nat {
    total_count(streams, streams[si][pi], streams[si][pi + 1])
}

/// Position `(sj, pj)` comes before `(si, pi)` when the streams are read one
/// after the other.
pub open spec fn lex_before(sj: int, pj: int, si: int, pi: int) -> bool {
    sj < si || (sj == si && pj < pi)
}

/// Of the positions before `(si, pi)`, `(bs, bp)` holds a pair that occurs
/// most often, and is the first to do so.
pub open spec fn is_best_before(streams: Seq<Seq<Token>>, si: int, pi: int, bs: int, bp: int) -> bool {
    &&& is_pair_position(streams, bs, bp)
    &&& lex_before(bs, bp, si, pi)
    &&& forall|sj: int, pj: int|
        is_pair_position(streams, sj, pj) && lex_before(sj, pj, si, pi) ==> #[trigger] count_at(
            streams,
            sj,
            pj,
        ) <= count_at(streams, bs, bp)
    &&& forall|sj: int, pj: int|
        is_pair_position(streams, sj, pj) && lex_before(sj, pj, bs, bp) ==> #[trigger] count_at(
            streams,
            sj,
            pj,
        ) < count_at(streams, bs, bp)
}

/// Position `(bs, bp)` holds a pair that occurs most often in the streams,
/// and no earlier position holds one that occurs as often.
pub open spec fn is_best_position(streams: Seq<Seq<Token>>, bs: int, bp: int) -> bool {
    is_best_before(streams, streams.len() as int, 0, bs, bp)
}

/// The first position of a most frequent pair.
pub open spec fn best_position(streams: Seq<Seq<Token>>) -> (int, int) {
    choose|p: (int, int)| is_best_position(streams, p.0, p.1)
}

/// The pair to merge next: the most frequent one, of several the one that
/// occurs first; none unless it occurs at least twice.
pub open spec fn next_merge(streams: Seq<Seq<Token>>) -> Option<Merge> {
    let p = best_position(streams);
    if is_best_position(streams, p.0, p.1) && count_at(streams, p.0, p.1) >= 2 {
        Some((streams[p.0][p.1], streams[p.0][p.1 + 1]))
    } else {
        None
    }
}

/// All streams with the pair replaced by `c`.
pub open spec fn merge_all(streams: Seq<Seq<Token>>, a: Token, b: Token, c: Token) -> Seq<Seq<Token>> {
    Seq::new(streams.len(), |k: int| merge_pair(streams[k], a, b, c))
}

/// The merge list that learning ends with, from the streams as they stand,
/// the merges made so far and the number of merges still allowed.
pub open spec fn learn(streams: Seq<Seq<Token>>, merges: Seq<Merge>, budget: nat) -> Seq<Merge>
    decreases budget,
{
    if budget == 0 {
        merges
    } else {
        match next_merge(streams) {
            None => merges,
            Some(pair) => learn(
                merge_all(streams, pair.0, pair.1, merged_token(merges.len() as int)),
                merges.push(pair),
                (budget - 1) as nat,
            ),
        }
    }
}

/// The merge list learned from a corpus with at most `budget` merges.
pub open spec fn build_spec(corpus: Seq<Seq<u8>>, budget: nat) -> Seq<Merge> {
    learn(corpus_tokens(corpus), Seq::empty(), budget)
}

/// The streams as sequences of tokens.
pub open spec fn streams_view(streams: Seq<Vec<Token>>) -> Seq<Seq<Token>> {
    Seq::new(streams.len(), |i: int| streams[i]@)
}

/// Every token of every stream is below `bound`.
pub open spec fn tokens_below(streams: Seq<Seq<Token>>, bound: int) -> bool {
    forall|i: int, p: int| 0 <= i < streams.len() && 0 <= p < streams[i].len() ==> #[trigger] streams[i][p] < bound
}

/// The key under which the pair is counted.
pub open spec fn pair_key(a: Token, b: Token) -> u64 {
    (a * 0x1_0000_0000 + b) as u64
}

/// The count that the table holds for the pair.
pub open spec fn count_of(counts: Map<u64, u128>, a: Token, b: Token) -> nat {
    if counts.contains_key(pair_key(a, b)) {
        counts[pair_key(a, b)] as nat
    } else {
        0
    }
}

/// The streams have at most one best position.
pub proof fn lemma_best_position_unique(streams: Seq<Seq<Token>>, p: (int, int), q: (int, int))
    requires
        is_best_position(streams, p.0, p.1),
        is_best_position(streams, q.0, q.1),
    ensures
        p == q,
{
    assert(count_at(streams, p.0, p.1) <= count_at(streams, q.0, q.1));
}

proof fn lemma_pair_count_in_bound(s: Seq<Token>, a: Token, b: Token, upto: int)
    ensures
        pair_count_in(s, a, b, upto) <= (if upto < 0 { 0 } else { upto }),
    decreases upto,
{
    if upto > 0 {
        lemma_pair_count_in_bound(s, a, b, upto - 1);
    }
}

proof fn lemma_pair_count_bound(streams: Seq<Seq<Token>>, a: Token, b: Token, upto: int)
    requires
        0 <= upto <= streams.len(),
        forall|i: int| 0 <= i < streams.len() ==> (#[trigger] streams[i]).len() <= 0xFFFF_FFFF_FFFF_FFFF,
    ensures
        pair_count(streams, a, b, upto) <= upto * 0xFFFF_FFFF_FFFF_FFFF,
    decreases upto,
{
    if upto > 0 {
        lemma_pair_count_bound(streams, a, b, upto - 1);
        lemma_pair_count_in_bound(streams[upto - 1], a, b, streams[upto - 1].len() - 1);
    }
}

fn key_of(a: Token, b: Token) -> (k: u64)
    ensures
        k == pair_key(a, b),
{
    (a as u64) * 0x1_0000_0000 + (b as u64)
}

/// Counts every pair of neighbours of the streams.
fn count_pairs(streams: &Vec<Vec<Token>>) -> (counts: HashMap<u64, u128>)
    ensures
        forall|a: Token, b: Token| #[trigger]
            count_of(counts@, a, b) == total_count(streams_view(streams@), a, b),
{
    let ghost sv = streams_view(streams@);
    let mut counts: HashMap<u64, u128> = HashMap::new();
    let mut si: usize = 0;
    proof {
        assert forall|i: int| 0 <= i < sv.len() implies (#[trigger] sv[i]).len() <= 0xFFFF_FFFF_FFFF_FFFF by {
            assert(streams@[i].len() <= usize::MAX);
        }
    }
    while si < streams.len()
        invariant
            sv == streams_view(streams@),
            si <= streams@.len(),
            forall|i: int| 0 <= i < sv.len() ==> (#[trigger] sv[i]).len() <= 0xFFFF_FFFF_FFFF_FFFF,
            forall|a: Token, b: Token| #[trigger] count_of(counts@, a, b) == pair_count(sv, a, b, si as int),
        decreases streams@.len() - si,
    {
        let stream = &streams[si];
        let n: usize = stream.len();
        let mut p: usize = 0;
        while p + 1 < n
            invariant
                sv == streams_view(streams@),
                si < streams@.len(),
                stream@ == sv[si as int],
                n == stream@.len(),
                p < n || p == 0,
                forall|i: int| 0 <= i < sv.len() ==> (#[trigger] sv[i]).len() <= 0xFFFF_FFFF_FFFF_FFFF,
                forall|a: Token, b: Token| #[trigger]
                    count_of(counts@, a, b) == pair_count(sv, a, b, si as int) + pair_count_in(
                        stream@,
                        a,
                        b,
                        p as int,
                    ),
            decreases n - p,
        {
            let x: Token = stream[p];
            let y: Token = stream[p + 1];
            let key: u64 = key_of(x, y);
            let seen: u128 = match counts.get(&key) {
                Some(v) => *v,
                None => 0,
            };
            proof {
                assert(seen == count_of(counts@, x, y));
                lemma_pair_count_bound(sv, x, y, si as int);
                lemma_pair_count_in_bound(stream@, x, y, p as int);
            }
            let ghost before = counts@;
            counts.insert(key, seen + 1);
            proof {
                assert forall|a: Token, b: Token| #[trigger]
                    count_of(counts@, a, b) == pair_count(sv, a, b, si as int) + pair_count_in(
                        stream@,
                        a,
                        b,
                        p + 1,
                    ) by {
                    assert(count_of(before, a, b) == pair_count(sv, a, b, si as int) + pair_count_in(
                        stream@,
                        a,
                        b,
                        p as int,
                    ));
                }
            }
            p = p + 1;
        }
        si = si + 1;
    }
    counts
}

/// Finds the first position of a most frequent pair, with the number of times
/// that pair occurs; nothing where no stream holds two tokens.
fn find_best(streams: &Vec<Vec<Token>>, counts: &HashMap<u64, u128>) -> (r: Option<(usize, usize, u128)>)
    requires
        forall|a: Token, b: Token| #[trigger]
            count_of(counts@, a, b) == total_count(streams_view(streams@), a, b),
    ensures
        (match r {
            Some((bs, bp, c)) => is_best_position(streams_view(streams@), bs as int, bp as int) && c
                == count_at(streams_view(streams@), bs as int, bp as int),
            None => forall|sj: int, pj: int| !is_pair_position(streams_view(streams@), sj, pj),
        }),
{
    let ghost sv = streams_view(streams@);
    let mut found: bool = false;
    let mut best_s: usize = 0;
    let mut best_p: usize = 0;
    let mut best_c: u128 = 0;
    let mut si: usize = 0;
    while si < streams.len()
        invariant
            sv == streams_view(streams@),
            si <= streams@.len(),
            forall|a: Token, b: Token| #[trigger] count_of(counts@, a, b) == total_count(sv, a, b),
            found ==> is_best_before(sv, si as int, 0, best_s as int, best_p as int) && best_c == count_at(
                sv,
                best_s as int,
                best_p as int,
            ),
            !found ==> forall|sj: int, pj: int|
                lex_before(sj, pj, si as int, 0) ==> !is_pair_position(sv, sj, pj),
        decreases streams@.len() - si,
    {
        let stream = &streams[si];
        let n: usize = stream.len();
        let mut p: usize = 0;
        while p + 1 < n
            invariant
                sv == streams_view(streams@),
                si < streams@.len(),
                stream@ == sv[si as int],
                n == stream@.len(),
                p < n || p == 0,
                forall|a: Token, b: Token| #[trigger] count_of(counts@, a, b) == total_count(sv, a, b),
                found ==> is_best_before(sv, si as int, p as int, best_s as int, best_p as int) && best_c
                    == count_at(sv, best_s as int, best_p as int),
                !found ==> forall|sj: int, pj: int|
                    lex_before(sj, pj, si as int, p as int) ==> !is_pair_position(sv, sj, pj),
            decreases n - p,
        {
            let x: Token = stream[p];
            let y: Token = stream[p + 1];
            let key: u64 = key_of(x, y);
            let c: u128 = match counts.get(&key) {
                Some(v) => *v,
                None => 0,
            };
            proof {
                assert(c == count_of(counts@, x, y));
            }
            if !found || c > best_c {
                found = true;
                best_s = si;
                best_p = p;
                best_c = c;
            }
            p = p + 1;
        }
        si = si + 1;
    }
    if found {
        Some((best_s, best_p, best_c))
    } else {
        None
    }
}

/// Replaces the pair by `c` in every stream.
fn merge_streams(streams: &Vec<Vec<Token>>, a: Token, b: Token, c: Token) -> (out: Vec<Vec<Token>>)
    ensures
        streams_view(out@) == merge_all(streams_view(streams@), a, b, c),
{
    let mut out: Vec<Vec<Token>> = Vec::new();
    let mut i: usize = 0;
    while i < streams.len()
        invariant
            i <= streams@.len(),
            out@.len() == i,
            forall|k: int| 0 <= k < i ==> (#[trigger] out@[k])@ == merge_pair(streams@[k]@, a, b, c),
        decreases streams@.len() - i,
    {
        let merged = merge_stream(&streams[i], a, b, c);
        out.push(merged);
        i = i + 1;
    }
    out
}

/// Merging a pair of tokens below `bound` into `bound` leaves every token at
/// or below `bound`.
proof fn lemma_merge_pair_below(s: Seq<Token>, a: Token, b: Token, c: Token, bound: int)
    requires
        forall|p: int| 0 <= p < s.len() ==> #[trigger] s[p] < bound,
        c <= bound,
    ensures
        forall|p: int| 0 <= p < merge_pair(s, a, b, c).len() ==> #[trigger] merge_pair(s, a, b, c)[p] < bound + 1,
    decreases s.len(),
{
    let out = merge_pair(s, a, b, c);
    if s.len() >= 2 {
        if s[0] == a && s[1] == b {
            let rest = s.skip(2);
            lemma_merge_pair_below(rest, a, b, c, bound);
            assert forall|p: int| 0 <= p < out.len() implies #[trigger] out[p] < bound + 1 by {
                if p > 0 {
                    assert(out[p] == merge_pair(rest, a, b, c)[p - 1]);
                }
            }
        } else {
            let rest = s.skip(1);
            lemma_merge_pair_below(rest, a, b, c, bound);
            assert forall|p: int| 0 <= p < out.len() implies #[trigger] out[p] < bound + 1 by {
                if p > 0 {
                    assert(out[p] == merge_pair(rest, a, b, c)[p - 1]);
                }
            }
        }
    }
}

/// Learns the merge list of the buffers, with at most `budget` merges.
///
/// As long as the budget lasts, the pair of neighbouring tokens that occurs
/// most often over all buffers is merged into a new token, provided it occurs
/// at least twice; of several pairs that occur equally often, the one that
/// occurs first, the buffers read in the order given. Each merge rewrites all
/// streams before the next count.
pub fn learn_merges(buffers: &[&[u8]], budget: u16) -> (merges: Vec<Merge>)
    ensures
        merges@ == build_spec(corpus_view(buffers@), budget as nat),
        merges_wf(merges@),
        merges@.len() <= budget,
{
    let mut streams: Vec<Vec<Token>> = Vec::new();
    let mut i: usize = 0;
    while i < buffers.len()
        invariant
            i <= buffers@.len(),
            streams@.len() == i,
            forall|k: int| 0 <= k < i ==> (#[trigger] streams@[k])@ == byte_tokens(buffers@[k]@),
        decreases buffers@.len() - i,
    {
        let stream = tokens_of_bytes(buffers[i]);
        streams.push(stream);
        i = i + 1;
    }
    let ghost start = corpus_tokens(corpus_view(buffers@));
    assert(streams_view(streams@) =~= start);
    let mut merges: Vec<Merge> = Vec::new();
    let mut stopped: bool = false;
    while !stopped && merges.len() < budget as usize
        invariant
            merges@.len() <= budget,
            merges_wf(merges@),
            tokens_below(streams_view(streams@), 256 + merges@.len() as int),
            learn(start, Seq::empty(), budget as nat) == learn(
                streams_view(streams@),
                merges@,
                (budget - merges@.len()) as nat,
            ),
            stopped ==> learn(streams_view(streams@), merges@, (budget - merges@.len()) as nat) == merges@,
        decreases (if stopped { 0int } else { 1int }), budget - merges@.len(),
    {
        let ghost sv = streams_view(streams@);
        let ghost chosen = best_position(sv);
        let counts = count_pairs(&streams);
        match find_best(&streams, &counts) {
            None => {
                stopped = true;
            },
            Some((bs, bp, c)) => {
                proof {
                    let found = (bs as int, bp as int);
                    lemma_best_position_unique(sv, found, chosen);
                }
                if c < 2 {
                    stopped = true;
                } else {
                    let a: Token = streams[bs][bp];
                    let b: Token = streams[bs][bp + 1];
                    let made: Token = 256 + merges.len() as Token;
                    proof {
                        assert forall|i: int, p: int|
                            0 <= i < merge_all(sv, a, b, made).len() && 0 <= p < merge_all(
                                sv,
                                a,
                                b,
                                made,
                            )[i].len() implies #[trigger] merge_all(sv, a, b, made)[i][p] < 256
                            + merges@.len() + 1 by {
                            lemma_merge_pair_below(sv[i], a, b, made, 256 + merges@.len() as int);
                        }
                    }
                    streams = merge_streams(&streams, a, b, made);
                    merges.push((a, b));
                }
            },
        }
    }
    merges
}

proof fn lemma_learn_wf(streams: Seq<Seq<Token>>, merges: Seq<Merge>, budget: nat)
    requires
        merges_wf(merges),
        merges.len() + budget <= u16::MAX,
        tokens_below(streams, 256 + merges.len() as int),
    ensures
        merges_wf(learn(streams, merges, budget)),
        learn(streams, merges, budget).len() <= merges.len() + budget,
    decreases budget,
{
    if budget > 0 {
        match next_merge(streams) {
            None => {},
            Some(pair) => {
                let made = merged_token(merges.len() as int);
                let next = merge_all(streams, pair.0, pair.1, made);
                assert forall|i: int, q: int| 0 <= i < next.len() && 0 <= q < next[i].len() implies #[trigger] next[i][q]
                    < 256 + merges.len() + 1 by {
                    lemma_merge_pair_below(streams[i], pair.0, pair.1, made, 256 + merges.len() as int);
                }
                lemma_learn_wf(next, merges.push(pair), (budget - 1) as nat);
            },
        }
    }
}

/// What is learned is a well-formed merge list, no longer than the budget.
pub proof fn lemma_build_wf(corpus: Seq<Seq<u8>>, budget: nat)
    requires
        budget <= u16::MAX,
    ensures
        merges_wf(build_spec(corpus, budget)),
        build_spec(corpus, budget).len() <= budget,
{
    lemma_learn_wf(corpus_tokens(corpus), Seq::empty(), budget);
}

/// The streams that learning ends with.
pub open spec fn learn_streams(streams: Seq<Seq<Token>>, merges: Seq<Merge>, budget: nat) -> Seq<Seq<Token>>
    decreases budget,
{
    if budget == 0 {
        streams
    } else {
        match next_merge(streams) {
            None => streams,
            Some(pair) => learn_streams(
                merge_all(streams, pair.0, pair.1, merged_token(merges.len() as int)),
                merges.push(pair),
                (budget - 1) as nat,
            ),
        }
    }
}

/// Every buffer of the corpus, encoded with the merge list.
pub open spec fn encode_all(merges: Seq<Merge>, corpus: Seq<Seq<u8>>) -> Seq<Seq<Token>> {
    Seq::new(corpus.len(), |i: int| encode_spec(merges, corpus[i]))
}

proof fn lemma_learn_streams(start: Seq<Seq<Token>>, streams: Seq<Seq<Token>>, merges: Seq<Merge>, budget: nat)
    requires
        streams.len() == start.len(),
        forall|i: int|
            0 <= i < start.len() ==> #[trigger] streams[i] == apply_merges(
                start[i],
                merges,
                merges.len() as int,
            ),
    ensures
        merges.len() <= learn(streams, merges, budget).len(),
        forall|k: int| 0 <= k < merges.len() ==> #[trigger] learn(streams, merges, budget)[k] == merges[k],
        learn_streams(streams, merges, budget).len() == start.len(),
        forall|i: int|
            0 <= i < start.len() ==> #[trigger] learn_streams(streams, merges, budget)[i] == apply_merges(
                start[i],
                learn(streams, merges, budget),
                learn(streams, merges, budget).len() as int,
            ),
        learn(streams, merges, budget).len() < merges.len() + budget ==> next_merge(
            learn_streams(streams, merges, budget),
        ).is_none(),
    decreases budget,
{
    if budget > 0 {
        match next_merge(streams) {
            None => {},
            Some(pair) => {
                let made = merged_token(merges.len() as int);
                let next = merge_all(streams, pair.0, pair.1, made);
                let grown = merges.push(pair);
                assert forall|i: int| 0 <= i < start.len() implies #[trigger] next[i] == apply_merges(
                    start[i],
                    grown,
                    grown.len() as int,
                ) by {
                    lemma_apply_merges_prefix(start[i], merges, grown, merges.len() as int);
                }
                lemma_learn_streams(start, next, grown, (budget - 1) as nat);
            },
        }
    }
}

/// Learning leaves the streams as encoding with the learned merge list makes
/// them: what a buffer of the corpus is encoded to is what learning counted
/// last.
pub proof fn lemma_learned_streams(corpus: Seq<Seq<u8>>, budget: nat)
    ensures
        learn_streams(corpus_tokens(corpus), Seq::empty(), budget) == encode_all(
            build_spec(corpus, budget),
            corpus,
        ),
        build_spec(corpus, budget).len() < budget ==> next_merge(
            encode_all(build_spec(corpus, budget), corpus),
        ).is_none(),
{
    let start = corpus_tokens(corpus);
    lemma_learn_streams(start, start, Seq::empty(), budget);
}

/// Stream `si` holds `a` followed by `b` at `pi`.
pub open spec fn holds_pair(streams: Seq<Seq<Token>>, si: int, pi: int, a: Token, b: Token) -> bool {
    is_pair_position(streams, si, pi) && streams[si][pi] == a && streams[si][pi + 1] == b
}

proof fn lemma_count_in_position(s: Seq<Token>, a: Token, b: Token, upto: int) -> (p: int)
    requires
        pair_count_in(s, a, b, upto) > 0,
    ensures
        0 <= p && p + 1 < s.len() && s[p] == a && s[p + 1] == b,
    decreases upto,
{
    if upto < s.len() && s[upto - 1] == a && s[upto] == b {
        upto - 1
    } else {
        lemma_count_in_position(s, a, b, upto - 1)
    }
}

proof fn lemma_count_position(streams: Seq<Seq<Token>>, a: Token, b: Token, upto: int) -> (r: (int, int))
    requires
        upto <= streams.len(),
        pair_count(streams, a, b, upto) > 0,
    ensures
        holds_pair(streams, r.0, r.1, a, b),
    decreases upto,
{
    if stream_count(streams[upto - 1], a, b) > 0 {
        let p = lemma_count_in_position(streams[upto - 1], a, b, streams[upto - 1].len() - 1);
        (upto - 1, p)
    } else {
        lemma_count_position(streams, a, b, upto - 1)
    }
}

proof fn lemma_best_before_exists(streams: Seq<Seq<Token>>, si: int, pi: int) -> (r: Option<(int, int)>)
    requires
        0 <= si <= streams.len(),
        0 <= pi,
    ensures
        (match r {
            Some(best) => is_best_before(streams, si, pi, best.0, best.1),
            None => forall|sj: int, pj: int|
                lex_before(sj, pj, si, pi) ==> !#[trigger] is_pair_position(streams, sj, pj),
        }),
    decreases si, pi,
{
    if pi > 0 {
        let prev = lemma_best_before_exists(streams, si, pi - 1);
        if is_pair_position(streams, si, pi - 1) {
            match prev {
                None => Some((si, pi - 1)),
                Some(best) => {
                    if count_at(streams, si, pi - 1) > count_at(streams, best.0, best.1) {
                        Some((si, pi - 1))
                    } else {
                        Some(best)
                    }
                },
            }
        } else {
            prev
        }
    } else if si > 0 {
        lemma_best_before_exists(streams, si - 1, streams[si - 1].len() as int)
    } else {
        None
    }
}

/// Where there is no pair to merge next, no pair occurs twice.
pub proof fn lemma_nothing_to_merge(streams: Seq<Seq<Token>>)
    requires
        next_merge(streams).is_none(),
    ensures
        forall|a: Token, b: Token| #[trigger] total_count(streams, a, b) <= 1,
{
    assert forall|a: Token, b: Token| #[trigger] total_count(streams, a, b) <= 1 by {
        if total_count(streams, a, b) >= 2 {
            let at = lemma_count_position(streams, a, b, streams.len() as int);
            assert(count_at(streams, at.0, at.1) == total_count(streams, a, b));
            let found = lemma_best_before_exists(streams, streams.len() as int, 0);
            let best = found.unwrap();
            lemma_best_position_unique(streams, best, best_position(streams));
        }
    }
}

/// Learning ends only when the budget is spent or nothing is left to merge:
/// where fewer merges were learned than the budget allows, no pair of
/// neighbours occurs twice in the corpus as the learned merges encode it.
pub proof fn lemma_learning_ends(corpus: Seq<Seq<u8>>, budget: nat)
    requires
        build_spec(corpus, budget).len() < budget,
    ensures
        forall|a: Token, b: Token| #[trigger]
            total_count(encode_all(build_spec(corpus, budget), corpus), a, b) <= 1,
{
    lemma_learned_streams(corpus, budget);
    lemma_nothing_to_merge(encode_all(build_spec(corpus, budget), corpus));
}

/// From a corpus in which no buffer holds two bytes nothing is learned: an
/// empty corpus, or empty buffers, give an empty merge list.
pub proof fn lemma_nothing_to_learn(corpus: Seq<Seq<u8>>, budget: nat)
    requires
        forall|i: int| 0 <= i < corpus.len() ==> (#[trigger] corpus[i]).len() < 2,
    ensures
        build_spec(corpus, budget) == Seq::<Merge>::empty(),
{
}

} // verus!
