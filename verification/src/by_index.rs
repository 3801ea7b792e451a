//! Comparison position by position: byte `i` of one buffer against byte `i`
//! of the other.

use vstd::prelude::*;
use core::ops::Range;
use crate::cell::{shown_bytes, GroupId, HexCell};

verus! {

/// Both buffers hold a byte at `i`, and the same one.
pub open spec fn agree(b0: Seq<u8>, b1: Seq<u8>, i: int) -> bool {
    0 <= i < b0.len() && i < b1.len() && b0[i] == b1[i]
}

/// Where the run of like positions that holds `i` begins: the least `s` such
/// that all of `s..=i` agree, or none of them does.
pub open spec fn run_start(b0: Seq<u8>, b1: Seq<u8>, i: int) -> int
    decreases i,
{
    if i <= 0 {
        0
    } else if agree(b0, b1, i) == agree(b0, b1, i - 1) {
        run_start(b0, b1, i - 1)
    } else {
        i
    }
}

/// The cell of source `side` (0 or 1) at position `i`.
///
/// A run of agreeing positions that begins at `s` is group `3 * s + 2` in both
/// rows; a run of other positions that begins at `s` is group `3 * s` in the
/// first row and `3 * s + 1` in the second. Past the end of a buffer its row
/// is blank.
pub open spec fn cell_at(b0: Seq<u8>, b1: Seq<u8>, side: int, i: int) -> HexCell {
    let own = if side == 0 { b0 } else { b1 };
    let s = run_start(b0, b1, i);
    if !(0 <= i < own.len()) {
        HexCell::Blank
    } else if agree(b0, b1, i) {
        HexCell::Same { value: own[i], source_id: (3 * s + 2) as GroupId }
    } else {
        HexCell::Diff { value: own[i], source_id: (3 * s + side) as GroupId }
    }
}

/// The row of source `side` over the positions `lo..hi`.
pub open spec fn index_cells(b0: Seq<u8>, b1: Seq<u8>, side: int, lo: int, hi: int) -> Seq<HexCell> {
    Seq::new(if hi > lo { (hi - lo) as nat } else { 0 }, |k: int| cell_at(b0, b1, side, lo + k))
}

/// The larger of the two lengths.
pub open spec fn longer(b0: Seq<u8>, b1: Seq<u8>) -> int {
    if b0.len() >= b1.len() { b0.len() as int } else { b1.len() as int }
}

fn agree_at(pattern0: &[u8], pattern1: &[u8], i: usize) -> (r: bool)
    ensures
        r == agree(pattern0@, pattern1@, i as int),
{
    i < pattern0.len() && i < pattern1.len() && pattern0[i] == pattern1[i]
}

fn cell_for(own: &[u8], side: u8, agrees: bool, start: usize, i: usize) -> (c: HexCell)
    requires
        side < 2,
        start <= i,
    ensures
        c == (if !(i < own@.len()) {
            HexCell::Blank
        } else if agrees {
            HexCell::Same { value: own@[i as int], source_id: (3 * start + 2) as GroupId }
        } else {
            HexCell::Diff { value: own@[i as int], source_id: (3 * start + side) as GroupId }
        }),
{
    if i >= own.len() {
        HexCell::Blank
    } else {
        let base: GroupId = 3 * (start as GroupId);
        if agrees {
            HexCell::Same { value: own[i], source_id: base + 2 }
        } else {
            HexCell::Diff { value: own[i], source_id: base + (side as GroupId) }
        }
    }
}

/// Compares the two buffers position by position over `range`.
///
/// Cell `k` of either row stands for position `range.start + k`. Where both
/// buffers hold the same byte the two rows show it as `Same` under one shared
/// group; where they differ, or only one holds a byte, each row that holds a
/// byte shows it as `Diff` under a group of its own, and a row that holds none
/// is `Blank`.
pub fn get_diffs(pattern0: &[u8], pattern1: &[u8], range: Range<usize>) -> (rows: (
    Vec<HexCell>,
    Vec<HexCell>,
))
    ensures
        rows.0@ == index_cells(pattern0@, pattern1@, 0, range.start as int, range.end as int),
        rows.1@ == index_cells(pattern0@, pattern1@, 1, range.start as int, range.end as int),
{
    let mut row0: Vec<HexCell> = Vec::new();
    let mut row1: Vec<HexCell> = Vec::new();
    let lo: usize = range.start;
    let hi: usize = range.end;
    if lo >= hi {
        return (row0, row1);
    }
    let mut agrees: bool = agree_at(pattern0, pattern1, lo);
    let mut start: usize = lo;
    while start > 0 && agree_at(pattern0, pattern1, start - 1) == agrees
        invariant
            start <= lo,
            agrees == agree(pattern0@, pattern1@, start as int),
            run_start(pattern0@, pattern1@, start as int) == run_start(pattern0@, pattern1@, lo as int),
        decreases start,
    {
        start = start - 1;
    }
    let mut i: usize = lo;
    while i < hi
        invariant
            lo <= i <= hi,
            start <= i,
            i < hi ==> agrees == agree(pattern0@, pattern1@, i as int),
            i < hi ==> start == run_start(pattern0@, pattern1@, i as int),
            row0@ == index_cells(pattern0@, pattern1@, 0, lo as int, i as int),
            row1@ == index_cells(pattern0@, pattern1@, 1, lo as int, i as int),
        decreases hi - i,
    {
        let c0 = cell_for(pattern0, 0, agrees, start, i);
        let c1 = cell_for(pattern1, 1, agrees, start, i);
        row0.push(c0);
        row1.push(c1);
        i = i + 1;
        if i < hi {
            let next = agree_at(pattern0, pattern1, i);
            if next != agrees {
                start = i;
                agrees = next;
            }
        }
    }
    (row0, row1)
}

/// Compares the two buffers position by position over their whole length,
/// the longer one's.
pub fn diff_by_index(buffer0: &[u8], buffer1: &[u8]) -> (rows: (Vec<HexCell>, Vec<HexCell>))
    ensures
        rows.0@ == index_cells(buffer0@, buffer1@, 0, 0, longer(buffer0@, buffer1@)),
        rows.1@ == index_cells(buffer0@, buffer1@, 1, 0, longer(buffer0@, buffer1@)),
{
    let len: usize = if buffer0.len() >= buffer1.len() { buffer0.len() } else { buffer1.len() };
    get_diffs(buffer0, buffer1, 0..len)
}

proof fn lemma_index_shown(b0: Seq<u8>, b1: Seq<u8>, side: int, hi: int)
    requires
        side == 0 || side == 1,
        0 <= hi,
    ensures
        shown_bytes(index_cells(b0, b1, side, 0, hi)) == (if side == 0 { b0 } else { b1 }).take(
            if hi <= (if side == 0 { b0 } else { b1 }).len() {
                hi
            } else {
                (if side == 0 { b0 } else { b1 }).len() as int
            },
        ),
    decreases hi,
{
    let cells = index_cells(b0, b1, side, 0, hi);
    if hi > 0 {
        lemma_index_shown(b0, b1, side, hi - 1);
        assert(cells.drop_last() =~= index_cells(b0, b1, side, 0, hi - 1));
    }
}

/// Each row of a comparison by position shows the bytes of its buffer, all of
/// them and in order, whatever the two buffers.
pub proof fn lemma_index_rows_show_sources(b0: Seq<u8>, b1: Seq<u8>)
    ensures
        shown_bytes(index_cells(b0, b1, 0, 0, longer(b0, b1))) == b0,
        shown_bytes(index_cells(b0, b1, 1, 0, longer(b0, b1))) == b1,
{
    lemma_index_shown(b0, b1, 0, longer(b0, b1));
    lemma_index_shown(b0, b1, 1, longer(b0, b1));
}

proof fn lemma_run_start_bounds(b0: Seq<u8>, b1: Seq<u8>, i: int)
    requires
        0 <= i,
    ensures
        0 <= run_start(b0, b1, i) <= i,
        agree(b0, b1, run_start(b0, b1, i)) == agree(b0, b1, i),
    decreases i,
{
    if i > 0 && agree(b0, b1, i) == agree(b0, b1, i - 1) {
        lemma_run_start_bounds(b0, b1, i - 1);
    }
}

proof fn lemma_run_start_identical(b: Seq<u8>, i: int)
    requires
        0 <= i < b.len(),
    ensures
        run_start(b, b, i) == 0,
    decreases i,
{
    if i > 0 {
        lemma_run_start_identical(b, i - 1);
    }
}

/// Two identical buffers give two identical rows, as long as the buffer, of
/// `Same` cells only, each with the byte of its position.
pub proof fn lemma_identical_buffers(b: Seq<u8>)
    ensures
        index_cells(b, b, 0, 0, longer(b, b)).len() == b.len(),
        index_cells(b, b, 1, 0, longer(b, b)) == index_cells(b, b, 0, 0, longer(b, b)),
        forall|i: int|
            0 <= i < b.len() ==> #[trigger] index_cells(b, b, 0, 0, longer(b, b))[i] == (HexCell::Same {
                value: b[i],
                source_id: 2,
            }),
{
    let row0 = index_cells(b, b, 0, 0, longer(b, b));
    let row1 = index_cells(b, b, 1, 0, longer(b, b));
    assert forall|i: int| 0 <= i < b.len() implies #[trigger] row0[i] == (HexCell::Same {
        value: b[i],
        source_id: 2,
    }) && row1[i] == row0[i] by {
        lemma_run_start_identical(b, i);
    }
}

/// How the groups of a comparison by position relate, for positions `i` and
/// `j` of buffers that fit in memory: where the buffers agree, the two rows
/// hold the same cell; the group of a `Same` cell is that of no `Diff` cell;
/// and no `Diff` cell of the first row shares its group with one of the
/// second. Two `Same` cells share their group exactly if they lie in the same
/// run of agreeing positions.
pub proof fn lemma_index_groups(b0: Seq<u8>, b1: Seq<u8>, i: int, j: int)
    requires
        b0.len() <= usize::MAX,
        b1.len() <= usize::MAX,
        0 <= i < longer(b0, b1),
        0 <= j < longer(b0, b1),
    ensures
        agree(b0, b1, i) ==> cell_at(b0, b1, 0, i) == cell_at(b0, b1, 1, i) && cell_at(b0, b1, 0, i)
            is Same,
        !agree(b0, b1, i) ==> !(cell_at(b0, b1, 0, i) is Same) && !(cell_at(b0, b1, 1, i) is Same),
        agree(b0, b1, i) && agree(b0, b1, j) ==> (cell_at(b0, b1, 0, i).spec_group() == cell_at(
            b0,
            b1,
            1,
            j,
        ).spec_group() <==> run_start(b0, b1, i) == run_start(b0, b1, j)),
        forall|s: int, t: int|
            (s == 0 || s == 1) && (t == 0 || t == 1) && cell_at(b0, b1, s, i) is Same && cell_at(
                b0,
                b1,
                t,
                j,
            ) is Diff ==> cell_at(b0, b1, s, i).spec_group() != cell_at(b0, b1, t, j).spec_group(),
        cell_at(b0, b1, 0, i) is Diff && cell_at(b0, b1, 1, j) is Diff ==> cell_at(
            b0,
            b1,
            0,
            i,
        ).spec_group() != cell_at(b0, b1, 1, j).spec_group(),
{
    lemma_run_start_bounds(b0, b1, i);
    lemma_run_start_bounds(b0, b1, j);
}

} // verus!
