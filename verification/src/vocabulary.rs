//! The shared vocabulary: tokens that stand for byte sequences, learned from
//! the buffers by merging the pair of neighbours that occurs most often.

use vstd::prelude::*;
use crate::learning::{build_spec, corpus_view, learn_merges};

verus! {

/// A token: below 256 the byte of that value, from 256 on the result of a
/// merge.
pub type Token = u32;

/// A merge: the two tokens that become one. Merge `k` of a list makes token
/// `256 + k`.
pub type Merge = (Token, Token);

/// The number of merges that are learned when the caller names no other.
pub const MERGE_BUDGET: u16 = 4096;

/// The token that merge `k` makes.
pub open spec fn merged_token(k: int) -> Token {
    (256 + k) as Token
}

/// Every merge joins tokens that exist before it, and the tokens they make
/// fit the token type.
pub open spec fn merges_wf(merges: Seq<Merge>) -> bool {
    &&& merges.len() <= u16::MAX
    &&& forall|k: int| 0 <= k < merges.len() ==> (#[trigger] merges[k]).0 < 256 + k && merges[k].1 < 256 + k
}

/// The bytes that a token stands for: itself for a byte, the bytes of its two
/// halves for a merged token, nothing for a token that the list does not
/// make.
pub open spec fn token_bytes(merges: Seq<Merge>, t: Token) -> Seq<u8>
    decreases t,
{
    if t < 256 {
        seq![t as u8]
    } else if t - 256 < merges.len() && merges[t - 256].0 < t && merges[t - 256].1 < t {
        token_bytes(merges, merges[t - 256].0) + token_bytes(merges, merges[t - 256].1)
    } else {
        Seq::empty()
    }
}

/// The bytes that a token sequence stands for: those of its tokens, in order.
pub open spec fn decode_spec(merges: Seq<Merge>, tokens: Seq<Token>) -> Seq<u8>
    decreases tokens.len(),
{
    if tokens.len() == 0 {
        Seq::empty()
    } else {
        decode_spec(merges, tokens.drop_last()) + token_bytes(merges, tokens.last())
    }
}

/// A buffer as tokens, one per byte.
pub open spec fn byte_tokens(bytes: Seq<u8>) -> Seq<Token> {
    Seq::new(bytes.len(), |i: int| bytes[i] as Token)
}

/// The sequence with every `a` followed by `b` replaced by `c`, from left to
/// right: of overlapping occurrences the left one is replaced.
pub open spec fn merge_pair(s: Seq<Token>, a: Token, b: Token, c: Token) -> Seq<Token>
    decreases s.len(),
{
    if s.len() < 2 {
        s
    } else if s[0] == a && s[1] == b {
        seq![c] + merge_pair(s.skip(2), a, b, c)
    } else {
        seq![s[0]] + merge_pair(s.skip(1), a, b, c)
    }
}

/// The sequence after the first `upto` merges of the list, each applied to the
/// whole sequence in the order of the list.
pub open spec fn apply_merges(s: Seq<Token>, merges: Seq<Merge>, upto: int) -> Seq<Token>
    decreases upto,
{
    if upto <= 0 {
        s
    } else {
        merge_pair(
            apply_merges(s, merges, upto - 1),
            merges[upto - 1].0,
            merges[upto - 1].1,
            merged_token(upto - 1),
        )
    }
}

/// A buffer as tokens of the vocabulary: one token per byte, then every merge
/// of the list in turn.
pub open spec fn encode_spec(merges: Seq<Merge>, bytes: Seq<u8>) -> Seq<Token> {
    apply_merges(byte_tokens(bytes), merges, merges.len() as int)
}

/// A token of a well-formed list stands for at least one byte, a merged
/// token for at least two.
pub proof fn lemma_token_bytes_len(merges: Seq<Merge>, t: Token)
    requires
        merges_wf(merges),
        t < 256 + merges.len(),
    ensures
        token_bytes(merges, t).len() >= 1,
        t >= 256 ==> token_bytes(merges, t).len() >= 2,
    decreases t,
{
    if t >= 256 {
        let pair = merges[t - 256];
        assert(pair.0 < t && pair.1 < t);
        lemma_token_bytes_len(merges, pair.0);
        lemma_token_bytes_len(merges, pair.1);
    }
}

/// Decoding goes through concatenation.
pub proof fn lemma_decode_concat(merges: Seq<Merge>, s: Seq<Token>, t: Seq<Token>)
    ensures
        decode_spec(merges, s + t) == decode_spec(merges, s) + decode_spec(merges, t),
    decreases t.len(),
{
    if t.len() > 0 {
        assert((s + t).drop_last() =~= s + t.drop_last());
        lemma_decode_concat(merges, s, t.drop_last());
    }
}

/// One token decodes to its bytes.
pub proof fn lemma_decode_one(merges: Seq<Merge>, t: Token)
    ensures
        decode_spec(merges, seq![t]) == token_bytes(merges, t),
{
    let s = seq![t];
    assert(decode_spec(merges, s.drop_last()) =~= Seq::<u8>::empty());
}

/// A buffer taken byte by byte decodes to itself.
pub proof fn lemma_decode_byte_tokens(merges: Seq<Merge>, bytes: Seq<u8>)
    ensures
        decode_spec(merges, byte_tokens(bytes)) == bytes,
    decreases bytes.len(),
{
    let s = byte_tokens(bytes);
    if bytes.len() > 0 {
        assert(s.drop_last() =~= byte_tokens(bytes.drop_last()));
        lemma_decode_byte_tokens(merges, bytes.drop_last());
    }
}

/// Replacing a pair by a token that stands for the bytes of both changes
/// nothing in what the sequence decodes to.
pub proof fn lemma_decode_merge_pair(merges: Seq<Merge>, s: Seq<Token>, a: Token, b: Token, c: Token)
    requires
        token_bytes(merges, c) == token_bytes(merges, a) + token_bytes(merges, b),
    ensures
        decode_spec(merges, merge_pair(s, a, b, c)) == decode_spec(merges, s),
    decreases s.len(),
{
    if s.len() >= 2 {
        if s[0] == a && s[1] == b {
            let rest = s.skip(2);
            lemma_decode_merge_pair(merges, rest, a, b, c);
            lemma_decode_concat(merges, seq![c], merge_pair(rest, a, b, c));
            lemma_decode_one(merges, c);
            assert(s =~= seq![a, b] + rest);
            assert(seq![a, b] =~= seq![a] + seq![b]);
            lemma_decode_concat(merges, seq![a, b], rest);
            lemma_decode_concat(merges, seq![a], seq![b]);
            lemma_decode_one(merges, a);
            lemma_decode_one(merges, b);
        } else {
            let rest = s.skip(1);
            lemma_decode_merge_pair(merges, rest, a, b, c);
            lemma_decode_concat(merges, seq![s[0]], merge_pair(rest, a, b, c));
            assert(s =~= seq![s[0]] + rest);
            lemma_decode_concat(merges, seq![s[0]], rest);
        }
    }
}

/// Applying merges of a well-formed list changes nothing in what a sequence
/// decodes to.
pub proof fn lemma_decode_apply_merges(merges: Seq<Merge>, s: Seq<Token>, upto: int)
    requires
        merges_wf(merges),
        upto <= merges.len(),
    ensures
        decode_spec(merges, apply_merges(s, merges, upto)) == decode_spec(merges, s),
    decreases upto,
{
    if upto > 0 {
        lemma_decode_apply_merges(merges, s, upto - 1);
        let k = upto - 1;
        lemma_decode_merge_pair(
            merges,
            apply_merges(s, merges, upto - 1),
            merges[k].0,
            merges[k].1,
            merged_token(k),
        );
    }
}

/// Merging makes a sequence no longer.
pub proof fn lemma_merge_pair_len(s: Seq<Token>, a: Token, b: Token, c: Token)
    ensures
        merge_pair(s, a, b, c).len() <= s.len(),
    decreases s.len(),
{
    if s.len() >= 2 {
        if s[0] == a && s[1] == b {
            lemma_merge_pair_len(s.skip(2), a, b, c);
        } else {
            lemma_merge_pair_len(s.skip(1), a, b, c);
        }
    }
}

/// An encoding has at most one token per byte.
pub proof fn lemma_encode_len(merges: Seq<Merge>, bytes: Seq<u8>)
    ensures
        encode_spec(merges, bytes).len() <= bytes.len(),
{
    lemma_apply_merges_len(byte_tokens(bytes), merges, merges.len() as int);
}

proof fn lemma_apply_merges_len(s: Seq<Token>, merges: Seq<Merge>, upto: int)
    ensures
        apply_merges(s, merges, upto).len() <= s.len(),
    decreases upto,
{
    if upto > 0 {
        lemma_apply_merges_len(s, merges, upto - 1);
        lemma_merge_pair_len(
            apply_merges(s, merges, upto - 1),
            merges[upto - 1].0,
            merges[upto - 1].1,
            merged_token(upto - 1),
        );
    }
}

/// The sequence holds `a` followed by `b` at position `p`.
pub open spec fn pair_at(s: Seq<Token>, p: int, a: Token, b: Token) -> bool {
    0 <= p && p + 1 < s.len() && s[p] == a && s[p + 1] == b
}

/// The sequence holds `a` followed by `b` somewhere.
pub open spec fn has_pair(s: Seq<Token>, a: Token, b: Token) -> bool {
    exists|p: int| pair_at(s, p, a, b)
}

/// A merge whose pair the sequence does not hold leaves it as it is.
pub proof fn lemma_merge_pair_absent(s: Seq<Token>, a: Token, b: Token, c: Token)
    requires
        !has_pair(s, a, b),
    ensures
        merge_pair(s, a, b, c) == s,
    decreases s.len(),
{
    if s.len() >= 2 {
        assert(!pair_at(s, 0, a, b));
        let rest = s.skip(1);
        assert forall|p: int| !pair_at(rest, p, a, b) by {
            assert(!pair_at(s, p + 1, a, b));
        }
        lemma_merge_pair_absent(rest, a, b, c);
    }
}

proof fn lemma_merge_pair_head(s: Seq<Token>, a: Token, b: Token, c: Token)
    requires
        s.len() >= 1,
    ensures
        merge_pair(s, a, b, c).len() >= 1,
        merge_pair(s, a, b, c)[0] == c || (merge_pair(s, a, b, c)[0] == s[0] && !pair_at(s, 0, a, b)),
{
}

/// Two neighbours of a merged sequence, neither of them the token that the
/// merge makes, were neighbours before the merge, and are not the pair that
/// was merged.
pub proof fn lemma_merge_pair_neighbours(s: Seq<Token>, a: Token, b: Token, c: Token, x: Token, y: Token)
    requires
        x != c,
        y != c,
        has_pair(merge_pair(s, a, b, c), x, y),
    ensures
        has_pair(s, x, y),
        !(x == a && y == b),
    decreases s.len(),
{
    let out = merge_pair(s, a, b, c);
    let p = choose|p: int| pair_at(out, p, x, y);
    if s.len() >= 2 {
        if s[0] == a && s[1] == b {
            let rest = s.skip(2);
            let tail = merge_pair(rest, a, b, c);
            assert(pair_at(tail, p - 1, x, y));
            lemma_merge_pair_neighbours(rest, a, b, c, x, y);
            let q = choose|q: int| pair_at(rest, q, x, y);
            assert(pair_at(s, q + 2, x, y));
        } else {
            let rest = s.skip(1);
            let tail = merge_pair(rest, a, b, c);
            if p == 0 {
                lemma_merge_pair_len(rest, a, b, c);
                lemma_merge_pair_head(rest, a, b, c);
                assert(pair_at(s, 0, x, y));
            } else {
                assert(pair_at(tail, p - 1, x, y));
                lemma_merge_pair_neighbours(rest, a, b, c, x, y);
                let q = choose|q: int| pair_at(rest, q, x, y);
                assert(pair_at(s, q + 1, x, y));
            }
        }
    }
}

/// After the first `upto` merges of a well-formed list, the sequence holds
/// the pair of none of them: each merge is applied until its pair is gone,
/// and no later merge brings it back. So when a merge is applied, no merge
/// before it in the list still applies.
pub proof fn lemma_apply_merges_settled(merges: Seq<Merge>, s: Seq<Token>, upto: int, j: int)
    requires
        merges_wf(merges),
        0 <= j < upto <= merges.len(),
    ensures
        !has_pair(apply_merges(s, merges, upto), merges[j].0, merges[j].1),
    decreases upto,
{
    let k = upto - 1;
    let prev = apply_merges(s, merges, k);
    let x = merges[j].0;
    let y = merges[j].1;
    if has_pair(apply_merges(s, merges, upto), x, y) {
        lemma_merge_pair_neighbours(prev, merges[k].0, merges[k].1, merged_token(k), x, y);
        if j < k {
            lemma_apply_merges_settled(merges, s, k, j);
        }
    }
}

/// No merge of the list applies to an encoding any more.
pub proof fn lemma_encode_exhaustive(merges: Seq<Merge>, bytes: Seq<u8>, j: int)
    requires
        merges_wf(merges),
        0 <= j < merges.len(),
    ensures
        !has_pair(encode_spec(merges, bytes), merges[j].0, merges[j].1),
{
    lemma_apply_merges_settled(merges, byte_tokens(bytes), merges.len() as int, j);
}

/// What the first `upto` merges make of a sequence depends on those merges
/// alone.
pub proof fn lemma_apply_merges_prefix(s: Seq<Token>, m1: Seq<Merge>, m2: Seq<Merge>, upto: int)
    requires
        upto <= m1.len(),
        upto <= m2.len(),
        forall|k: int| 0 <= k < upto ==> m1[k] == m2[k],
    ensures
        apply_merges(s, m1, upto) == apply_merges(s, m2, upto),
    decreases upto,
{
    if upto > 0 {
        lemma_apply_merges_prefix(s, m1, m2, upto - 1);
    }
}

/// Encoding and then decoding gives the buffer back, whatever the buffer and
/// whatever the well-formed merge list.
pub proof fn lemma_round_trip(merges: Seq<Merge>, bytes: Seq<u8>)
    requires
        merges_wf(merges),
    ensures
        decode_spec(merges, encode_spec(merges, bytes)) == bytes,
{
    lemma_decode_apply_merges(merges, byte_tokens(bytes), merges.len() as int);
    lemma_decode_byte_tokens(merges, bytes);
}

/// Turns a buffer into tokens, one per byte.
pub(crate) fn tokens_of_bytes(buffer: &[u8]) -> (stream: Vec<Token>)
    ensures
        stream@ == byte_tokens(buffer@),
{
    let mut stream: Vec<Token> = Vec::new();
    let mut i: usize = 0;
    while i < buffer.len()
        invariant
            i <= buffer@.len(),
            stream@ == byte_tokens(buffer@.take(i as int)),
        decreases buffer@.len() - i,
    {
        stream.push(buffer[i] as Token);
        i = i + 1;
    }
    stream
}

/// Replaces every `a` followed by `b` by `c`, from left to right.
pub(crate) fn merge_stream(stream: &Vec<Token>, a: Token, b: Token, c: Token) -> (out: Vec<Token>)
    ensures
        out@ == merge_pair(stream@, a, b, c),
{
    let mut out: Vec<Token> = Vec::new();
    let n: usize = stream.len();
    let mut i: usize = 0;
    assert(stream@.skip(0) =~= stream@);
    while i < n
        invariant
            i <= n,
            n == stream@.len(),
            out@ + merge_pair(stream@.skip(i as int), a, b, c) == merge_pair(stream@, a, b, c),
        decreases n - i,
    {
        let ghost rest = stream@.skip(i as int);
        if i + 1 < n && stream[i] == a && stream[i + 1] == b {
            out.push(c);
            proof {
                assert(rest.skip(2) =~= stream@.skip(i + 2));
            }
            i = i + 2;
        } else {
            out.push(stream[i]);
            proof {
                assert(rest.skip(1) =~= stream@.skip(i + 1));
            }
            i = i + 1;
        }
    }
    out
}

/// Byte `b` stands at position `p` of buffer `i` of the corpus.
pub open spec fn occurs_at(corpus: Seq<Seq<u8>>, b: u8, i: int, p: int) -> bool {
    0 <= i < corpus.len() && 0 <= p < corpus[i].len() && corpus[i][p] == b
}

/// Byte `b` stands somewhere in the corpus.
pub open spec fn byte_occurs(corpus: Seq<Seq<u8>>, b: u8) -> bool {
    exists|i: int, p: int| occurs_at(corpus, b, i, p)
}

/// Appends the bytes of token `t` to `out`: the byte itself, or the expansion
/// of the merge that made it; nothing for a token that no merge made.
fn append_token(out: &mut Vec<u8>, t: Token, expansions: &Vec<Vec<u8>>)
    ensures
        final(out)@ == old(out)@ + (if t < 256 {
            seq![t as u8]
        } else if t - 256 < expansions@.len() {
            expansions@[t - 256]@
        } else {
            Seq::<u8>::empty()
        }),
{
    if t < 256 {
        out.push(t as u8);
    } else if ((t - 256) as usize) < expansions.len() {
        let src = &expansions[(t - 256) as usize];
        let mut i: usize = 0;
        while i < src.len()
            invariant
                i <= src@.len(),
                out@ == old(out)@ + src@.take(i as int),
            decreases src@.len() - i,
        {
            out.push(src[i]);
            i = i + 1;
        }
    }
}

/// Writes out the bytes of every merged token.
fn expand_merges(merges: &Vec<Merge>) -> (expansions: Vec<Vec<u8>>)
    requires
        merges_wf(merges@),
    ensures
        expansions@.len() == merges@.len(),
        forall|k: int|
            0 <= k < expansions@.len() ==> (#[trigger] expansions@[k])@ == token_bytes(
                merges@,
                merged_token(k),
            ),
{
    let mut expansions: Vec<Vec<u8>> = Vec::new();
    let mut k: usize = 0;
    while k < merges.len()
        invariant
            merges_wf(merges@),
            k <= merges@.len(),
            expansions@.len() == k,
            forall|j: int|
                0 <= j < k ==> (#[trigger] expansions@[j])@ == token_bytes(merges@, merged_token(j)),
        decreases merges@.len() - k,
    {
        let pair: Merge = merges[k];
        let mut bytes: Vec<u8> = Vec::new();
        append_token(&mut bytes, pair.0, &expansions);
        append_token(&mut bytes, pair.1, &expansions);
        assert(bytes@ =~= token_bytes(merges@, pair.0) + token_bytes(merges@, pair.1));
        expansions.push(bytes);
        k = k + 1;
    }
    expansions
}

/// Marks the byte values that the buffers hold.
fn bytes_present(buffers: &[&[u8]]) -> (flags: Vec<bool>)
    ensures
        flags@.len() == 256,
        forall|b: u8| #[trigger] flags@[b as int] == byte_occurs(corpus_view(buffers@), b),
{
    let ghost corpus = corpus_view(buffers@);
    let mut flags: Vec<bool> = Vec::new();
    let mut n: usize = 0;
    while n < 256
        invariant
            n <= 256,
            flags@.len() == n,
            forall|j: int| 0 <= j < n ==> !flags@[j],
        decreases 256 - n,
    {
        flags.push(false);
        n = n + 1;
    }
    let mut i: usize = 0;
    while i < buffers.len()
        invariant
            corpus == corpus_view(buffers@),
            i <= buffers@.len(),
            flags@.len() == 256,
            forall|b: u8| #[trigger]
                flags@[b as int] == (exists|j: int, q: int| occurs_at(corpus, b, j, q) && j < i),
        decreases buffers@.len() - i,
    {
        let buffer = buffers[i];
        let mut p: usize = 0;
        while p < buffer.len()
            invariant
                corpus == corpus_view(buffers@),
                i < buffers@.len(),
                corpus[i as int] == buffer@,
                p <= buffer@.len(),
                flags@.len() == 256,
                forall|b: u8| #[trigger]
                    flags@[b as int] == (exists|j: int, q: int|
                        occurs_at(corpus, b, j, q) && (j < i || (j == i && q < p))),
            decreases buffer@.len() - p,
        {
            let x: u8 = buffer[p];
            let ghost before = flags@;
            flags.set(x as usize, true);
            proof {
                assert forall|b: u8| #[trigger]
                    flags@[b as int] == (exists|j: int, q: int|
                        occurs_at(corpus, b, j, q) && (j < i || (j == i && q < p + 1))) by {
                    if b == x {
                        assert(occurs_at(corpus, b, i as int, p as int));
                    } else {
                        if before[b as int] {
                            let (j, q) = choose|j: int, q: int|
                                occurs_at(corpus, b, j, q) && (j < i || (j == i && q < p));
                        }
                    }
                }
            }
            p = p + 1;
        }
        i = i + 1;
    }
    flags
}

/// A vocabulary: the byte values that the corpus holds, and the merges that
/// were learned from it, in the order in which they were made.
pub struct Vocabulary {
    merges: Vec<Merge>,
    expansions: Vec<Vec<u8>>,
    alphabet: Vec<bool>,
}

impl View for Vocabulary {
    type V = Seq<Merge>;

    /// The merge list.
    closed spec fn view(&self) -> Seq<Merge> {
        self.merges@
    }
}

impl Vocabulary {
    #[verifier::type_invariant]
    spec fn inv(self) -> bool {
        &&& merges_wf(self.merges@)
        &&& self.alphabet@.len() == 256
        &&& self.expansions@.len() == self.merges@.len()
        &&& forall|k: int|
            0 <= k < self.expansions@.len() ==> (#[trigger] self.expansions@[k])@ == token_bytes(
                self.merges@,
                merged_token(k),
            )
    }

    /// The corpus that the vocabulary was built from held byte `b`.
    pub closed spec fn has_byte(&self, b: u8) -> bool {
        self.alphabet@[b as int]
    }

    /// Token `t` belongs to the vocabulary: a byte that the corpus held, or a
    /// token that a merge made.
    pub open spec fn has_token(&self, t: Token) -> bool {
        if t < 256 {
            self.has_byte(t as u8)
        } else {
            t - 256 < self@.len()
        }
    }

    /// Learns a vocabulary from the buffers, with at most `MERGE_BUDGET`
    /// merges.
    pub fn build(buffers: &[&[u8]]) -> (v: Vocabulary)
        ensures
            v@ == build_spec(corpus_view(buffers@), MERGE_BUDGET as nat),
            merges_wf(v@),
            forall|b: u8| #[trigger] v.has_byte(b) == byte_occurs(corpus_view(buffers@), b),
    {
        Vocabulary::build_with_budget(buffers, MERGE_BUDGET)
    }

    /// Learns a vocabulary from the buffers, with at most `budget` merges.
    ///
    /// The vocabulary holds one token for each byte value that stands in a
    /// buffer, and one for each merge. A merge joins the pair of neighbouring
    /// tokens that occurs most often over all buffers, of several the one
    /// that occurs first; learning ends when no pair occurs twice or the
    /// budget is spent.
    pub fn build_with_budget(buffers: &[&[u8]], budget: u16) -> (v: Vocabulary)
        ensures
            v@ == build_spec(corpus_view(buffers@), budget as nat),
            merges_wf(v@),
            forall|b: u8| #[trigger] v.has_byte(b) == byte_occurs(corpus_view(buffers@), b),
    {
        let merges = learn_merges(buffers, budget);
        let expansions = expand_merges(&merges);
        let alphabet = bytes_present(buffers);
        Vocabulary { merges, expansions, alphabet }
    }

    /// The merges, in the order in which they were made.
    pub fn merges(&self) -> (merges: &Vec<Merge>)
        ensures
            merges@ == self@,
            merges_wf(self@),
    {
        proof {
            use_type_invariant(self);
        }
        &self.merges
    }

    /// Whether the token belongs to the vocabulary.
    pub fn contains(&self, t: Token) -> (r: bool)
        ensures
            r == self.has_token(t),
    {
        proof {
            use_type_invariant(self);
        }
        if t < 256 {
            self.alphabet[t as usize]
        } else {
            ((t - 256) as usize) < self.merges.len()
        }
    }

    /// The bytes that the token stands for, if it belongs to the vocabulary.
    pub fn bytes_of(&self, t: Token) -> (r: Option<Vec<u8>>)
        ensures
            (match r {
                Some(bytes) => self.has_token(t) && bytes@ == token_bytes(self@, t),
                None => !self.has_token(t),
            }),
    {
        proof {
            use_type_invariant(self);
        }
        if self.contains(t) {
            let mut bytes: Vec<u8> = Vec::new();
            append_token(&mut bytes, t, &self.expansions);
            Some(bytes)
        } else {
            None
        }
    }

    /// Turns a buffer into tokens: one token per byte, then every merge of
    /// the vocabulary in the order in which it was made, each replacing its
    /// pair wherever it stands, from left to right.
    pub fn encode(&self, buffer: &[u8]) -> (tokens: Vec<Token>)
        ensures
            tokens@ == encode_spec(self@, buffer@),
            merges_wf(self@),
    {
        proof {
            use_type_invariant(self);
        }
        let mut stream = tokens_of_bytes(buffer);
        let mut k: usize = 0;
        while k < self.merges.len()
            invariant
                merges_wf(self.merges@),
                k <= self.merges@.len(),
                stream@ == apply_merges(byte_tokens(buffer@), self.merges@, k as int),
            decreases self.merges@.len() - k,
        {
            let pair: Merge = self.merges[k];
            let made: Token = 256 + k as Token;
            stream = merge_stream(&stream, pair.0, pair.1, made);
            k = k + 1;
        }
        stream
    }

    /// Turns tokens back into bytes: the bytes of each token, in order. A
    /// token that does not belong to the merge list and is no byte stands for
    /// nothing.
    pub fn decode(&self, tokens: &[Token]) -> (bytes: Vec<u8>)
        ensures
            bytes@ == decode_spec(self@, tokens@),
            merges_wf(self@),
    {
        proof {
            use_type_invariant(self);
            assert(tokens@.subrange(0, tokens@.len() as int) =~= tokens@);
        }
        self.decode_range(tokens, 0, tokens.len())
    }

    /// Turns the tokens `lo..hi` of a sequence back into bytes.
    pub(crate) fn decode_range(&self, tokens: &[Token], lo: usize, hi: usize) -> (bytes: Vec<u8>)
        requires
            lo <= hi <= tokens@.len(),
        ensures
            bytes@ == decode_spec(self@, tokens@.subrange(lo as int, hi as int)),
    {
        proof {
            use_type_invariant(self);
        }
        let mut bytes: Vec<u8> = Vec::new();
        let mut i: usize = lo;
        while i < hi
            invariant
                self.inv(),
                lo <= i <= hi <= tokens@.len(),
                bytes@ == decode_spec(self.merges@, tokens@.subrange(lo as int, i as int)),
            decreases hi - i,
        {
            let t: Token = tokens[i];
            proof {
                assert(tokens@.subrange(lo as int, i + 1).drop_last() =~= tokens@.subrange(
                    lo as int,
                    i as int,
                ));
            }
            append_token(&mut bytes, t, &self.expansions);
            i = i + 1;
        }
        bytes
    }
}

} // verus!
