//! From spans to cells: every span becomes a run of `Same` cells in both
//! rows, every gap a run of `Diff` cells in the row of its source.

use vstd::prelude::*;
use crate::cell::{lemma_shown_concat, shown_bytes, GroupId, HexCell};
use crate::matcher::{gap_start, span_agrees, spans_ordered, MatchSpan};
use crate::vocabulary::{decode_spec, lemma_decode_concat, Merge, Token, Vocabulary};

verus! {

/// The bytes as cells without a counterpart, all of one group.
pub open spec fn diff_cells(bytes: Seq<u8>, id: GroupId) -> Seq<HexCell> {
    Seq::new(bytes.len(), |i: int| HexCell::Diff { value: bytes[i], source_id: id })
}

/// The bytes as cells with a counterpart, all of one group.
pub open spec fn same_cells(bytes: Seq<u8>, id: GroupId) -> Seq<HexCell> {
    Seq::new(bytes.len(), |i: int| HexCell::Same { value: bytes[i], source_id: id })
}

/// The group of span `k`, in both rows.
pub open spec fn span_id(k: int) -> GroupId {
    (3 * k + 2) as GroupId
}

/// The group of gap `k` in the row of source `side`.
pub open spec fn gap_id(k: int, side: int) -> GroupId {
    (3 * k + side) as GroupId
}

/// The cells of source `side` for its first `k` gaps and the first `k` spans:
/// gap, span, gap, span, in the order of the sequence.
pub open spec fn project_prefix(
    spans: Seq<MatchSpan>,
    tokens: Seq<Token>,
    merges: Seq<Merge>,
    side: int,
    k: int,
) -> Seq<HexCell>
    decreases k,
{
    if k <= 0 {
        Seq::empty()
    } else {
        project_prefix(spans, tokens, merges, side, k - 1) + diff_cells(
            decode_spec(merges, tokens.subrange(gap_start(spans, side, k - 1), spans[k - 1].start(side))),
            gap_id(k - 1, side),
        ) + same_cells(
            decode_spec(merges, tokens.subrange(spans[k - 1].start(side), spans[k - 1].end(side))),
            span_id(k - 1),
        )
    }
}

/// The row of source `side`: its gaps and spans in order, the last gap at the
/// end.
pub open spec fn project_side(spans: Seq<MatchSpan>, tokens: Seq<Token>, merges: Seq<Merge>, side: int) -> Seq<
    HexCell,
> {
    project_prefix(spans, tokens, merges, side, spans.len() as int) + diff_cells(
        decode_spec(merges, tokens.subrange(gap_start(spans, side, spans.len() as int), tokens.len() as int)),
        gap_id(spans.len() as int, side),
    )
}

/// In sequence `side`, which has `len` tokens, every span begins where the gap
/// before it ends or later, and ends inside the sequence.
pub open spec fn side_ordered(spans: Seq<MatchSpan>, side: int, len: int) -> bool {
    forall|k: int|
        0 <= k < spans.len() ==> gap_start(spans, side, k) <= (#[trigger] spans[k]).start(side)
            && spans[k].end(side) <= len
}

/// A valid alignment is in order in each of the two sequences.
pub proof fn lemma_ordered_sides(spans: Seq<MatchSpan>, len0: nat, len1: nat)
    requires
        spans_ordered(spans, len0, len1),
    ensures
        side_ordered(spans, 0, len0 as int),
        side_ordered(spans, 1, len1 as int),
{
}

/// Appends one cell per byte to the row, `Same` or `Diff`, all of group `id`.
fn push_cells(row: &mut Vec<HexCell>, bytes: &Vec<u8>, same: bool, id: GroupId)
    ensures
        final(row)@ == old(row)@ + (if same {
            same_cells(bytes@, id)
        } else {
            diff_cells(bytes@, id)
        }),
{
    let ghost cells = if same { same_cells(bytes@, id) } else { diff_cells(bytes@, id) };
    let mut i: usize = 0;
    while i < bytes.len()
        invariant
            i <= bytes@.len(),
            cells == (if same { same_cells(bytes@, id) } else { diff_cells(bytes@, id) }),
            row@ == old(row)@ + cells.take(i as int),
        decreases bytes@.len() - i,
    {
        let cell = if same {
            HexCell::Same { value: bytes[i], source_id: id }
        } else {
            HexCell::Diff { value: bytes[i], source_id: id }
        };
        row.push(cell);
        i = i + 1;
    }
}

/// Builds the row of source `side`.
fn project_row(spans: &[MatchSpan], tokens: &[Token], vocabulary: &Vocabulary, side: u8) -> (row: Vec<HexCell>)
    requires
        side < 2,
        side_ordered(spans@, side as int, tokens@.len() as int),
    ensures
        row@ == project_side(spans@, tokens@, vocabulary@, side as int),
{
    let mut row: Vec<HexCell> = Vec::new();
    let total: usize = tokens.len();
    let mut pos: usize = 0;
    let mut k: usize = 0;
    while k < spans.len()
        invariant
            side < 2,
            total == tokens@.len(),
            side_ordered(spans@, side as int, tokens@.len() as int),
            k <= spans@.len(),
            pos == gap_start(spans@, side as int, k as int),
            pos <= tokens@.len(),
            row@ == project_prefix(spans@, tokens@, vocabulary@, side as int, k as int),
        decreases spans@.len() - k,
    {
        let span: MatchSpan = spans[k];
        let start: usize = if side == 0 { span.start0 } else { span.start1 };
        let end: usize = start + span.len;
        let base: GroupId = 3 * (k as GroupId);
        let gap = vocabulary.decode_range(tokens, pos, start);
        push_cells(&mut row, &gap, false, base + side as GroupId);
        let run = vocabulary.decode_range(tokens, start, end);
        push_cells(&mut row, &run, true, base + 2);
        pos = end;
        k = k + 1;
    }
    let base: GroupId = 3 * (k as GroupId);
    let gap = vocabulary.decode_range(tokens, pos, total);
    push_cells(&mut row, &gap, false, base + side as GroupId);
    row
}

/// Turns an alignment into the two rows of cells.
///
/// In both rows a span becomes `Same` cells, one per byte that its tokens
/// stand for, all of one group that only this span has. What lies between two
/// spans of a source, before its first or after its last, becomes `Diff`
/// cells of a group that only this gap of this source has. Neither row is
/// padded.
pub fn project(spans: &[MatchSpan], tokens0: &[Token], tokens1: &[Token], vocabulary: &Vocabulary) -> (rows: (
    Vec<HexCell>,
    Vec<HexCell>,
))
    requires
        spans_ordered(spans@, tokens0@.len(), tokens1@.len()),
    ensures
        rows.0@ == project_side(spans@, tokens0@, vocabulary@, 0),
        rows.1@ == project_side(spans@, tokens1@, vocabulary@, 1),
{
    proof {
        lemma_ordered_sides(spans@, tokens0@.len(), tokens1@.len());
    }
    let row0 = project_row(spans, tokens0, vocabulary, 0);
    let row1 = project_row(spans, tokens1, vocabulary, 1);
    (row0, row1)
}

proof fn lemma_shown_cells(bytes: Seq<u8>, id: GroupId)
    ensures
        shown_bytes(diff_cells(bytes, id)) == bytes,
        shown_bytes(same_cells(bytes, id)) == bytes,
    decreases bytes.len(),
{
    if bytes.len() > 0 {
        lemma_shown_cells(bytes.drop_last(), id);
        assert(diff_cells(bytes, id).drop_last() =~= diff_cells(bytes.drop_last(), id));
        assert(same_cells(bytes, id).drop_last() =~= same_cells(bytes.drop_last(), id));
    }
}

proof fn lemma_prefix_shown(spans: Seq<MatchSpan>, tokens: Seq<Token>, merges: Seq<Merge>, side: int, k: int)
    requires
        side == 0 || side == 1,
        side_ordered(spans, side, tokens.len() as int),
        0 <= k <= spans.len(),
    ensures
        0 <= gap_start(spans, side, k) <= tokens.len(),
        shown_bytes(project_prefix(spans, tokens, merges, side, k)) == decode_spec(
            merges,
            tokens.subrange(0, gap_start(spans, side, k)),
        ),
    decreases k,
{
    if k > 0 {
        lemma_prefix_shown(spans, tokens, merges, side, k - 1);
        let span = spans[k - 1];
        let from = gap_start(spans, side, k - 1);
        let before = project_prefix(spans, tokens, merges, side, k - 1);
        let gap = tokens.subrange(from, span.start(side));
        let run = tokens.subrange(span.start(side), span.end(side));
        let gap_cells = diff_cells(decode_spec(merges, gap), gap_id(k - 1, side));
        let run_cells = same_cells(decode_spec(merges, run), span_id(k - 1));
        lemma_shown_concat(before, gap_cells);
        lemma_shown_concat(before + gap_cells, run_cells);
        lemma_shown_cells(decode_spec(merges, gap), gap_id(k - 1, side));
        lemma_shown_cells(decode_spec(merges, run), span_id(k - 1));
        lemma_decode_concat(merges, tokens.subrange(0, from), gap);
        lemma_decode_concat(merges, tokens.subrange(0, from) + gap, run);
        assert(tokens.subrange(0, from) + gap + run =~= tokens.subrange(0, span.end(side)));
    }
}

/// A row shows what the tokens of its source decode to, all of it and in
/// order.
pub proof fn lemma_row_shows_source(spans: Seq<MatchSpan>, tokens: Seq<Token>, merges: Seq<Merge>, side: int)
    requires
        side == 0 || side == 1,
        side_ordered(spans, side, tokens.len() as int),
    ensures
        shown_bytes(project_side(spans, tokens, merges, side)) == decode_spec(merges, tokens),
{
    let n = spans.len() as int;
    lemma_prefix_shown(spans, tokens, merges, side, n);
    let from = gap_start(spans, side, n);
    let tail = tokens.subrange(from, tokens.len() as int);
    let tail_cells = diff_cells(decode_spec(merges, tail), gap_id(n, side));
    lemma_shown_concat(project_prefix(spans, tokens, merges, side, n), tail_cells);
    lemma_shown_cells(decode_spec(merges, tail), gap_id(n, side));
    lemma_decode_concat(merges, tokens.subrange(0, from), tail);
    assert(tokens.subrange(0, from) + tail =~= tokens);
}

/// Without spans a row is one gap: a `Diff` cell for every byte that the
/// tokens decode to, all of one group.
pub proof fn lemma_no_spans_all_diff(tokens: Seq<Token>, merges: Seq<Merge>, side: int)
    ensures
        project_side(Seq::<MatchSpan>::empty(), tokens, merges, side) == diff_cells(
            decode_spec(merges, tokens),
            gap_id(0, side),
        ),
{
    assert(tokens.subrange(0, tokens.len() as int) =~= tokens);
}

/// The cell belongs to one of the first `n` spans, or to one of the first
/// `n + 1` gaps of source `side`, and carries the group of that span or gap.
pub open spec fn is_region_cell(cell: HexCell, n: int, side: int) -> bool {
    match cell {
        HexCell::Same { source_id, .. } => exists|k: int| 0 <= k < n && source_id == span_id(k),
        HexCell::Diff { source_id, .. } => exists|k: int| 0 <= k <= n && source_id == gap_id(k, side),
        HexCell::Blank => false,
    }
}

proof fn lemma_prefix_regions(spans: Seq<MatchSpan>, tokens: Seq<Token>, merges: Seq<Merge>, side: int, k: int)
    requires
        0 <= k,
    ensures
        forall|i: int|
            0 <= i < project_prefix(spans, tokens, merges, side, k).len() ==> is_region_cell(
                #[trigger] project_prefix(spans, tokens, merges, side, k)[i],
                k,
                side,
            ),
    decreases k,
{
    if k > 0 {
        lemma_prefix_regions(spans, tokens, merges, side, k - 1);
        let before = project_prefix(spans, tokens, merges, side, k - 1);
        let row = project_prefix(spans, tokens, merges, side, k);
        let gap_cells = diff_cells(
            decode_spec(merges, tokens.subrange(gap_start(spans, side, k - 1), spans[k - 1].start(side))),
            gap_id(k - 1, side),
        );
        let run_cells = same_cells(
            decode_spec(merges, tokens.subrange(spans[k - 1].start(side), spans[k - 1].end(side))),
            span_id(k - 1),
        );
        assert(row == before + gap_cells + run_cells);
        assert forall|i: int| 0 <= i < row.len() implies is_region_cell(#[trigger] row[i], k, side) by {
            if i < before.len() {
                assert(row[i] == before[i]);
                assert(is_region_cell(before[i], k - 1, side));
                match before[i] {
                    HexCell::Same { source_id, .. } => {
                        let l = choose|l: int| 0 <= l < k - 1 && source_id == span_id(l);
                        assert(0 <= l < k && source_id == span_id(l));
                    },
                    HexCell::Diff { source_id, .. } => {
                        let l = choose|l: int| 0 <= l <= k - 1 && source_id == gap_id(l, side);
                        assert(0 <= l <= k && source_id == gap_id(l, side));
                    },
                    HexCell::Blank => {},
                }
            } else if i < before.len() + gap_cells.len() {
                assert(row[i] == gap_cells[i - before.len()]);
                assert(0 <= k - 1 <= k && gap_id(k - 1, side) == gap_id(k - 1, side));
            } else {
                assert(row[i] == run_cells[i - before.len() - gap_cells.len()]);
                assert(0 <= k - 1 < k && span_id(k - 1) == span_id(k - 1));
            }
        }
    }
}

/// Every cell of a row is a `Same` cell with the group of one of the spans,
/// or a `Diff` cell with the group of one of the gaps of its source; no cell
/// is blank.
pub proof fn lemma_row_regions(spans: Seq<MatchSpan>, tokens: Seq<Token>, merges: Seq<Merge>, side: int)
    ensures
        forall|i: int|
            0 <= i < project_side(spans, tokens, merges, side).len() ==> is_region_cell(
                #[trigger] project_side(spans, tokens, merges, side)[i],
                spans.len() as int,
                side,
            ),
{
    let n = spans.len() as int;
    lemma_prefix_regions(spans, tokens, merges, side, n);
}

/// Groups tell regions apart: two spans have the same group only if they are
/// the same span, a gap never has the group of a span, and two gaps have the
/// same group only if they are the same gap of the same source.
pub proof fn lemma_groups_distinct(k: int, l: int, s: int, t: int)
    requires
        0 <= k <= usize::MAX,
        0 <= l <= usize::MAX,
        s == 0 || s == 1,
        t == 0 || t == 1,
    ensures
        span_id(k) == span_id(l) <==> k == l,
        gap_id(k, s) != span_id(l),
        gap_id(k, s) == gap_id(l, t) <==> k == l && s == t,
{
}

/// Where the two sequences hold the same tokens over a span, the span's cells
/// are the same in both rows.
pub proof fn lemma_span_cells_agree(
    span: MatchSpan,
    k: int,
    tokens0: Seq<Token>,
    tokens1: Seq<Token>,
    merges: Seq<Merge>,
)
    requires
        span_agrees(span, tokens0, tokens1),
    ensures
        same_cells(decode_spec(merges, tokens0.subrange(span.start(0), span.end(0))), span_id(k))
            == same_cells(decode_spec(merges, tokens1.subrange(span.start(1), span.end(1))), span_id(k)),
{
}

} // verus!
