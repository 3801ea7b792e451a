//! Order-preserving alignment of two token sequences: the longest common run
//! first, then the same again to its left and to its right.

use vstd::prelude::*;
use crate::vocabulary::Token;

verus! {

/// A run of tokens that both sequences hold: `len` tokens from `start0` in the
/// first and from `start1` in the second.
#[derive(Clone, Copy, Debug, PartialEq, Eq, Structural)]
pub struct MatchSpan {
    pub start0: usize,
    pub start1: usize,
    pub len: usize,
}

impl MatchSpan {
    /// Where the span begins in sequence `side` (0 or 1).
    pub open spec fn start(self, side: int) -> int {
        if side == 0 { self.start0 as int } else { self.start1 as int }
    }

    /// Where the span ends in sequence `side`, one past its last token.
    pub open spec fn end(self, side: int) -> int {
        self.start(side) + self.len
    }
}

/// A pair of ranges, `lo0..hi0` of the first sequence and `lo1..hi1` of the
/// second, in which a match is looked for.
pub struct Window {
    pub lo0: int,
    pub hi0: int,
    pub lo1: int,
    pub hi1: int,
}

/// The window of `lo0..hi0` and `lo1..hi1`.
pub open spec fn window(lo0: int, hi0: int, lo1: int, hi1: int) -> Window {
    Window { lo0, hi0, lo1, hi1 }
}

/// The whole of two sequences of the given lengths.
pub open spec fn whole(len0: nat, len1: nat) -> Window {
    window(0, len0 as int, 0, len1 as int)
}

/// How far the two sequences go on alike from `i` and `j`, without passing
/// `hi0` or `hi1`.
pub open spec fn run_len(t0: Seq<Token>, t1: Seq<Token>, i: int, j: int, hi0: int, hi1: int) -> nat
    decreases hi0 - i,
{
    if 0 <= i < hi0 && 0 <= j < hi1 && hi0 <= t0.len() && hi1 <= t1.len() && t0[i] == t1[j] {
        1 + run_len(t0, t1, i + 1, j + 1, hi0, hi1)
    } else {
        0
    }
}

/// The run of `n` tokens from `i` and `j` is the longest common run of the
/// window, and of the longest ones the one that begins first in the first
/// sequence, then first in the second.
pub open spec fn is_longest_run(t0: Seq<Token>, t1: Seq<Token>, w: Window, i: int, j: int, n: nat) -> bool {
    &&& w.lo0 <= i < w.hi0
    &&& w.lo1 <= j < w.hi1
    &&& n == run_len(t0, t1, i, j, w.hi0, w.hi1)
    &&& forall|a: int, b: int|
        w.lo0 <= a < w.hi0 && w.lo1 <= b < w.hi1 ==> #[trigger] run_len(t0, t1, a, b, w.hi0, w.hi1) <= n
    &&& forall|a: int, b: int|
        w.lo0 <= a < w.hi0 && w.lo1 <= b < w.hi1 && (a < i || (a == i && b < j)) ==> #[trigger] run_len(
            t0,
            t1,
            a,
            b,
            w.hi0,
            w.hi1,
        ) < n
}

/// The longest common run of the window, as `(i, j, n)`.
pub open spec fn longest_run(t0: Seq<Token>, t1: Seq<Token>, w: Window) -> (int, int, nat) {
    choose|r: (int, int, nat)| is_longest_run(t0, t1, w, r.0, r.1, r.2)
}

/// The spans that the alignment finds in the window.
///
/// Nothing where a range is empty or the longest common run is shorter than
/// `min` (or than one token); else the spans of the part to the left of that
/// run, the run itself, and the spans of the part to its right.
pub open spec fn align_window(t0: Seq<Token>, t1: Seq<Token>, w: Window, min: nat) -> Seq<MatchSpan>
    decreases w.hi0 - w.lo0,
    via align_window_decreases
{
    let r = longest_run(t0, t1, w);
    if is_longest_run(t0, t1, w, r.0, r.1, r.2) && r.2 >= min && r.2 >= 1 {
        let left = window(w.lo0, r.0, w.lo1, r.1);
        let right = window(r.0 + r.2, w.hi0, r.1 + r.2, w.hi1);
        align_window(t0, t1, left, min).push(
            MatchSpan { start0: r.0 as usize, start1: r.1 as usize, len: r.2 as usize },
        ) + align_window(t0, t1, right, min)
    } else {
        Seq::empty()
    }
}

#[via_fn]
proof fn align_window_decreases(t0: Seq<Token>, t1: Seq<Token>, w: Window, min: nat) {
    let r = longest_run(t0, t1, w);
    lemma_run_len_within(t0, t1, r.0, r.1, w.hi0, w.hi1);
}

/// The alignment of two whole sequences.
pub open spec fn align_spec(t0: Seq<Token>, t1: Seq<Token>, min: nat) -> Seq<MatchSpan> {
    align_window(t0, t1, whole(t0.len(), t1.len()), min)
}

/// A common run lies inside both ranges, and is common.
pub proof fn lemma_run_len_within(t0: Seq<Token>, t1: Seq<Token>, i: int, j: int, hi0: int, hi1: int)
    ensures
        run_len(t0, t1, i, j, hi0, hi1) > 0 ==> 0 <= i && 0 <= j && i + run_len(t0, t1, i, j, hi0, hi1)
            <= hi0 <= t0.len() && j + run_len(t0, t1, i, j, hi0, hi1) <= hi1 <= t1.len(),
        forall|p: int| i <= p < i + run_len(t0, t1, i, j, hi0, hi1) ==> #[trigger] t0[p] == t1[p - i + j],
    decreases hi0 - i,
{
    if run_len(t0, t1, i, j, hi0, hi1) > 0 {
        lemma_run_len_within(t0, t1, i + 1, j + 1, hi0, hi1);
    }
}

/// A window has at most one longest run.
pub proof fn lemma_longest_run_unique(
    t0: Seq<Token>,
    t1: Seq<Token>,
    w: Window,
    r: (int, int, nat),
    s: (int, int, nat),
)
    requires
        is_longest_run(t0, t1, w, r.0, r.1, r.2),
        is_longest_run(t0, t1, w, s.0, s.1, s.2),
    ensures
        r == s,
{
}

/// The spans lie inside the window, each holds at least one token, and each
/// ends, in both sequences, before any later one begins.
pub open spec fn spans_within(spans: Seq<MatchSpan>, w: Window) -> bool {
    &&& forall|k: int|
        0 <= k < spans.len() ==> {
            &&& (#[trigger] spans[k]).len >= 1
            &&& w.lo0 <= spans[k].start(0) && spans[k].end(0) <= w.hi0
            &&& w.lo1 <= spans[k].start(1) && spans[k].end(1) <= w.hi1
        }
    &&& forall|k: int, l: int|
        0 <= k < l < spans.len() ==> (#[trigger] spans[k]).end(0) <= (#[trigger] spans[l]).start(0)
            && spans[k].end(1) <= spans[l].start(1)
}

/// The spans are a valid alignment of two sequences of the given lengths.
pub open spec fn spans_ordered(spans: Seq<MatchSpan>, len0: nat, len1: nat) -> bool {
    spans_within(spans, whole(len0, len1))
}

/// The two sequences hold the same tokens over the span.
pub open spec fn span_agrees(span: MatchSpan, t0: Seq<Token>, t1: Seq<Token>) -> bool {
    &&& span.end(0) <= t0.len()
    &&& span.end(1) <= t1.len()
    &&& t0.subrange(span.start(0), span.end(0)) == t1.subrange(span.start(1), span.end(1))
}

/// The length of sequence `side`, of two lengths.
pub open spec fn side_len(len0: nat, len1: nat, side: int) -> int {
    if side == 0 { len0 as int } else { len1 as int }
}

/// Position `idx` of sequence `side` lies in span `k`.
pub open spec fn in_span(spans: Seq<MatchSpan>, side: int, k: int, idx: int) -> bool {
    0 <= k < spans.len() && spans[k].start(side) <= idx < spans[k].end(side)
}

/// Where gap `k` of sequence `side` begins: gap `k` is what lies between span
/// `k - 1` and span `k`, the first gap before all spans, the last after all.
pub open spec fn gap_start(spans: Seq<MatchSpan>, side: int, k: int) -> int {
    if k <= 0 { 0 } else { spans[k - 1].end(side) }
}

/// Where gap `k` of sequence `side`, which has `len` tokens, ends.
pub open spec fn gap_end(spans: Seq<MatchSpan>, side: int, len: int, k: int) -> int {
    if k >= spans.len() { len } else { spans[k].start(side) }
}

/// Position `idx` of sequence `side`, which has `len` tokens, lies in gap `k`.
pub open spec fn in_gap(spans: Seq<MatchSpan>, side: int, len: int, k: int, idx: int) -> bool {
    0 <= k <= spans.len() && gap_start(spans, side, k) <= idx < gap_end(spans, side, len, k)
}

proof fn lemma_align_window(t0: Seq<Token>, t1: Seq<Token>, w: Window, min: nat)
    requires
        0 <= w.lo0,
        0 <= w.lo1,
        w.hi0 <= t0.len() <= usize::MAX,
        w.hi1 <= t1.len() <= usize::MAX,
    ensures
        spans_within(align_window(t0, t1, w, min), w),
        forall|k: int|
            0 <= k < align_window(t0, t1, w, min).len() ==> span_agrees(
                #[trigger] align_window(t0, t1, w, min)[k],
                t0,
                t1,
            ) && align_window(t0, t1, w, min)[k].len >= min,
    decreases w.hi0 - w.lo0,
{
    let r = longest_run(t0, t1, w);
    let spans = align_window(t0, t1, w, min);
    if is_longest_run(t0, t1, w, r.0, r.1, r.2) && r.2 >= min && r.2 >= 1 {
        lemma_run_len_within(t0, t1, r.0, r.1, w.hi0, w.hi1);
        let left = window(w.lo0, r.0, w.lo1, r.1);
        let right = window(r.0 + r.2, w.hi0, r.1 + r.2, w.hi1);
        let mid = MatchSpan { start0: r.0 as usize, start1: r.1 as usize, len: r.2 as usize };
        lemma_align_window(t0, t1, left, min);
        lemma_align_window(t0, t1, right, min);
        assert(span_agrees(mid, t0, t1)) by {
            let a = t0.subrange(mid.start(0), mid.end(0));
            let b = t1.subrange(mid.start(1), mid.end(1));
            assert(a =~= b);
        }
        assert forall|k: int| 0 <= k < spans.len() implies {
            &&& (#[trigger] spans[k]).len >= 1
            &&& w.lo0 <= spans[k].start(0) && spans[k].end(0) <= w.hi0
            &&& w.lo1 <= spans[k].start(1) && spans[k].end(1) <= w.hi1
            &&& span_agrees(spans[k], t0, t1)
            &&& spans[k].len >= min
        } by {
        }
    }
}

/// The spans of an alignment are in order and do not overlap: each lies inside
/// both sequences and ends, in the first sequence and in the second, no later
/// than the next one begins. Over each span the two sequences hold the same
/// tokens, and no span is shorter than the least length asked for.
pub proof fn lemma_align_ordered(t0: Seq<Token>, t1: Seq<Token>, min: nat)
    requires
        t0.len() <= usize::MAX,
        t1.len() <= usize::MAX,
    ensures
        spans_ordered(align_spec(t0, t1, min), t0.len(), t1.len()),
        forall|k: int|
            0 <= k < align_spec(t0, t1, min).len() - 1 ==> {
                &&& (#[trigger] align_spec(t0, t1, min)[k]).start0 <= align_spec(t0, t1, min)[k + 1].start0
                &&& align_spec(t0, t1, min)[k].start0 + align_spec(t0, t1, min)[k].len <= align_spec(
                    t0,
                    t1,
                    min,
                )[k + 1].start0
                &&& align_spec(t0, t1, min)[k].start1 + align_spec(t0, t1, min)[k].len <= align_spec(
                    t0,
                    t1,
                    min,
                )[k + 1].start1
            },
        forall|k: int|
            0 <= k < align_spec(t0, t1, min).len() ==> span_agrees(
                #[trigger] align_spec(t0, t1, min)[k],
                t0,
                t1,
            ) && align_spec(t0, t1, min)[k].len >= min,
{
    lemma_align_window(t0, t1, whole(t0.len(), t1.len()), min);
    let spans = align_spec(t0, t1, min);
    assert forall|k: int| 0 <= k < spans.len() - 1 implies {
        &&& (#[trigger] spans[k]).start0 <= spans[k + 1].start0
        &&& spans[k].start0 + spans[k].len <= spans[k + 1].start0
        &&& spans[k].start1 + spans[k].len <= spans[k + 1].start1
    } by {
    }
}

/// Where the two sequences have no common run of `min` tokens, the alignment
/// holds no span.
pub proof fn lemma_align_dissimilar(t0: Seq<Token>, t1: Seq<Token>, min: nat)
    requires
        forall|i: int, j: int|
            0 <= i < t0.len() && 0 <= j < t1.len() ==> #[trigger] run_len(
                t0,
                t1,
                i,
                j,
                t0.len() as int,
                t1.len() as int,
            ) < min,
    ensures
        align_spec(t0, t1, min) == Seq::<MatchSpan>::empty(),
{
}

proof fn lemma_region_from(spans: Seq<MatchSpan>, len0: nat, len1: nat, side: int, idx: int, k: int)
    requires
        spans_ordered(spans, len0, len1),
        side == 0 || side == 1,
        0 <= idx < side_len(len0, len1, side),
        0 <= k <= spans.len(),
        gap_start(spans, side, k) <= idx,
    ensures
        (exists|l: int| in_span(spans, side, l, idx)) || (exists|l: int|
            in_gap(spans, side, side_len(len0, len1, side), l, idx)),
    decreases spans.len() - k,
{
    let len = side_len(len0, len1, side);
    if idx < gap_end(spans, side, len, k) {
        assert(in_gap(spans, side, len, k, idx));
    } else {
        if idx < spans[k].end(side) {
            assert(in_span(spans, side, k, idx));
        } else {
            lemma_region_from(spans, len0, len1, side, idx, k + 1);
        }
    }
}

/// Every position of either sequence lies in exactly one span or in exactly
/// one gap of a valid alignment: in one of the two kinds, never in both, and
/// in no two spans and no two gaps.
pub proof fn lemma_coverage(spans: Seq<MatchSpan>, len0: nat, len1: nat, side: int, idx: int)
    requires
        spans_ordered(spans, len0, len1),
        side == 0 || side == 1,
        0 <= idx < side_len(len0, len1, side),
    ensures
        (exists|k: int| in_span(spans, side, k, idx)) != (exists|k: int|
            in_gap(spans, side, side_len(len0, len1, side), k, idx)),
        forall|k: int, l: int| in_span(spans, side, k, idx) && in_span(spans, side, l, idx) ==> k == l,
        forall|k: int, l: int|
            in_gap(spans, side, side_len(len0, len1, side), k, idx) && in_gap(
                spans,
                side,
                side_len(len0, len1, side),
                l,
                idx,
            ) ==> k == l,
{
    lemma_region_from(spans, len0, len1, side, idx, 0);
}

/// Every position of either sequence lies in exactly one span or in exactly
/// one gap of the alignment of the two sequences.
pub proof fn lemma_align_coverage(t0: Seq<Token>, t1: Seq<Token>, min: nat, side: int, idx: int)
    requires
        t0.len() <= usize::MAX,
        t1.len() <= usize::MAX,
        side == 0 || side == 1,
        0 <= idx < side_len(t0.len(), t1.len(), side),
    ensures
        (exists|k: int| in_span(align_spec(t0, t1, min), side, k, idx)) != (exists|k: int|
            in_gap(align_spec(t0, t1, min), side, side_len(t0.len(), t1.len(), side), k, idx)),
        forall|k: int, l: int|
            in_span(align_spec(t0, t1, min), side, k, idx) && in_span(align_spec(t0, t1, min), side, l, idx)
                ==> k == l,
        forall|k: int, l: int|
            in_gap(align_spec(t0, t1, min), side, side_len(t0.len(), t1.len(), side), k, idx) && in_gap(
                align_spec(t0, t1, min),
                side,
                side_len(t0.len(), t1.len(), side),
                l,
                idx,
            ) ==> k == l,
{
    lemma_align_ordered(t0, t1, min);
    lemma_coverage(align_spec(t0, t1, min), t0.len(), t1.len(), side, idx);
}

/// Finds the longest common run of a window that is empty in neither
/// sequence.
fn longest_common_run(
    t0: &[Token],
    t1: &[Token],
    lo0: usize,
    hi0: usize,
    lo1: usize,
    hi1: usize,
) -> (r: (usize, usize, usize))
    requires
        lo0 < hi0 <= t0@.len(),
        lo1 < hi1 <= t1@.len(),
    ensures
        is_longest_run(
            t0@,
            t1@,
            window(lo0 as int, hi0 as int, lo1 as int, hi1 as int),
            r.0 as int,
            r.1 as int,
            r.2 as nat,
        ),
{
    let width: usize = hi1 - lo1;
    let mut row: Vec<usize> = Vec::new();
    let mut k: usize = 0;
    while k < width
        invariant
            k <= width,
            row@.len() == k,
            forall|q: int| 0 <= q < k ==> row@[q] == 0,
        decreases width - k,
    {
        row.push(0);
        k = k + 1;
    }
    let mut i: usize = hi0;
    let mut best: (usize, usize, usize) = (lo0, lo1, 0);
    while i > lo0
        invariant
            lo0 <= i <= hi0 <= t0@.len(),
            lo1 < hi1 <= t1@.len(),
            width == hi1 - lo1,
            row@.len() == width,
            forall|q: int|
                0 <= q < width ==> row@[q] == run_len(t0@, t1@, i as int, lo1 + q, hi0 as int, hi1 as int),
            i < hi0 ==> is_longest_run(
                t0@,
                t1@,
                window(i as int, hi0 as int, lo1 as int, hi1 as int),
                best.0 as int,
                best.1 as int,
                best.2 as nat,
            ),
        decreases i,
    {
        i = i - 1;
        let mut j: usize = lo1;
        let mut row_j: usize = lo1;
        let mut row_n: usize = 0;
        while j < hi1
            invariant
                lo0 <= i < hi0 <= t0@.len(),
                lo1 <= j <= hi1 <= t1@.len(),
                width == hi1 - lo1,
                row@.len() == width,
                forall|q: int|
                    0 <= q < j - lo1 ==> row@[q] == run_len(
                        t0@,
                        t1@,
                        i as int,
                        lo1 + q,
                        hi0 as int,
                        hi1 as int,
                    ),
                forall|q: int|
                    j - lo1 <= q < width ==> row@[q] == run_len(
                        t0@,
                        t1@,
                        i + 1,
                        lo1 + q,
                        hi0 as int,
                        hi1 as int,
                    ),
                j > lo1 ==> lo1 <= row_j < j,
                j > lo1 ==> row_n == run_len(t0@, t1@, i as int, row_j as int, hi0 as int, hi1 as int),
                j > lo1 ==> forall|b: int|
                    lo1 <= b < j ==> #[trigger] run_len(t0@, t1@, i as int, b, hi0 as int, hi1 as int)
                        <= row_n,
                j > lo1 ==> forall|b: int|
                    lo1 <= b < row_j ==> #[trigger] run_len(t0@, t1@, i as int, b, hi0 as int, hi1 as int)
                        < row_n,
            decreases hi1 - j,
        {
            let diag: usize = if j + 1 < hi1 { row[j + 1 - lo1] } else { 0 };
            proof {
                lemma_run_len_within(t0@, t1@, i + 1, j + 1, hi0 as int, hi1 as int);
            }
            let n: usize = if t0[i] == t1[j] { diag + 1 } else { 0 };
            row.set(j - lo1, n);
            if j == lo1 || n > row_n {
                row_j = j;
                row_n = n;
            }
            j = j + 1;
        }
        if i + 1 == hi0 || row_n >= best.2 {
            best = (i, row_j, row_n);
        }
    }
    best
}

/// Appends to `out` the spans of the window, left to right.
fn align_into(
    t0: &[Token],
    t1: &[Token],
    lo0: usize,
    hi0: usize,
    lo1: usize,
    hi1: usize,
    min: usize,
    out: &mut Vec<MatchSpan>,
)
    requires
        lo0 <= hi0 <= t0@.len(),
        lo1 <= hi1 <= t1@.len(),
    ensures
        final(out)@ == old(out)@ + align_window(
            t0@,
            t1@,
            window(lo0 as int, hi0 as int, lo1 as int, hi1 as int),
            min as nat,
        ),
    decreases hi0 - lo0,
{
    let ghost w = window(lo0 as int, hi0 as int, lo1 as int, hi1 as int);
    let ghost chosen = longest_run(t0@, t1@, w);
    if lo0 >= hi0 || lo1 >= hi1 {
        return ;
    }
    let r = longest_common_run(t0, t1, lo0, hi0, lo1, hi1);
    proof {
        let found = (r.0 as int, r.1 as int, r.2 as nat);
        lemma_longest_run_unique(t0@, t1@, w, found, chosen);
        lemma_run_len_within(t0@, t1@, r.0 as int, r.1 as int, hi0 as int, hi1 as int);
    }
    if r.2 < min || r.2 == 0 {
        return ;
    }
    align_into(t0, t1, lo0, r.0, lo1, r.1, min, out);
    out.push(MatchSpan { start0: r.0, start1: r.1, len: r.2 });
    align_into(t0, t1, r.0 + r.2, hi0, r.1 + r.2, hi1, min, out);
}

/// Aligns two token sequences.
///
/// The longest run of tokens that both hold becomes a span, provided it has at
/// least `min_match_length` tokens, and at least one; of several longest runs
/// the one that begins first in `tokens0`, then first in `tokens1`, is taken.
/// What lies before the span in both sequences is aligned in the same way, and
/// what lies after it. The spans come out from left to right.
pub fn align(tokens0: &[Token], tokens1: &[Token], min_match_length: usize) -> (spans: Vec<MatchSpan>)
    ensures
        spans@ == align_spec(tokens0@, tokens1@, min_match_length as nat),
{
    let mut spans: Vec<MatchSpan> = Vec::new();
    align_into(tokens0, tokens1, 0, tokens0.len(), 0, tokens1.len(), min_match_length, &mut spans);
    spans
}

/// Tells whether the spans are a valid alignment of two sequences of the
/// given lengths: each span inside both sequences and at least one token
/// long, each ending in both before the next begins.
pub fn spans_are_ordered(spans: &[MatchSpan], len0: usize, len1: usize) -> (ok: bool)
    ensures
        ok == spans_ordered(spans@, len0 as nat, len1 as nat),
{
    let mut prev0: usize = 0;
    let mut prev1: usize = 0;
    let mut k: usize = 0;
    while k < spans.len()
        invariant
            k <= spans@.len(),
            prev0 <= len0,
            prev1 <= len1,
            forall|j: int|
                0 <= j < k ==> {
                    &&& (#[trigger] spans@[j]).len >= 1
                    &&& spans@[j].end(0) <= prev0
                    &&& spans@[j].end(1) <= prev1
                },
            forall|i: int, j: int|
                0 <= i < j < k ==> (#[trigger] spans@[i]).end(0) <= (#[trigger] spans@[j]).start(0)
                    && spans@[i].end(1) <= spans@[j].start(1),
            k == 0 ==> prev0 == 0 && prev1 == 0,
            k > 0 ==> prev0 == spans@[k - 1].end(0) && prev1 == spans@[k - 1].end(1),
        decreases spans@.len() - k,
    {
        let span: MatchSpan = spans[k];
        if span.len < 1 || span.len > len0 || span.len > len1 || span.start0 > len0 - span.len
            || span.start1 > len1 - span.len {
            return false;
        }
        if span.start0 < prev0 || span.start1 < prev1 {
            return false;
        }
        prev0 = span.start0 + span.len;
        prev1 = span.start1 + span.len;
        k = k + 1;
    }
    true
}

} // verus!
