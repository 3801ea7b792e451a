//! The entry point: two buffers and a method in, two rows of cells out.

use vstd::prelude::*;
use crate::by_index::{diff_by_index, index_cells, lemma_index_rows_show_sources, longer};
use crate::cell::{shown_bytes, HexCell};
use crate::learning::{build_spec, corpus_view, lemma_build_wf};
use crate::matcher::{align, align_spec, lemma_align_dissimilar, lemma_align_ordered, run_len, MatchSpan};
use crate::project::{
    diff_cells,
    gap_id,
    lemma_no_spans_all_diff,
    lemma_ordered_sides,
    lemma_row_shows_source,
    project,
    project_side,
};
use crate::vocabulary::{encode_spec, lemma_encode_len, lemma_round_trip, merges_wf, Merge, Vocabulary, MERGE_BUDGET};

verus! {

/// The least number of tokens that a common run must have to become a span.
pub const MIN_MATCH_LENGTH: usize = 1;

/// The way in which two buffers are compared.
#[derive(Clone, Copy, Debug, PartialEq, Eq, Structural)]
pub enum DiffMethod {
    /// Byte `i` of one buffer against byte `i` of the other.
    ByIndex,
    /// Both buffers are turned into tokens of a vocabulary learned from the
    /// two of them, the token sequences are aligned, longest common run
    /// first, and the alignment is turned into cells.
    BpeGreedy00,
}

impl DiffMethod {
    /// The number that selects the method.
    pub open spec fn spec_selector(self) -> u8 {
        match self {
            DiffMethod::ByIndex => 0,
            DiffMethod::BpeGreedy00 => 1,
        }
    }

    /// The number that selects the method.
    #[verifier::when_used_as_spec(spec_selector)]
    pub fn selector(self) -> (s: u8)
        ensures
            s == self.spec_selector(),
    {
        match self {
            DiffMethod::ByIndex => 0,
            DiffMethod::BpeGreedy00 => 1,
        }
    }

    /// The method that the number selects; none for a number that selects no
    /// method.
    pub fn from_selector(selector: u8) -> (method: Option<DiffMethod>)
        ensures
            selector == 0 ==> method == Some(DiffMethod::ByIndex),
            selector == 1 ==> method == Some(DiffMethod::BpeGreedy00),
            selector >= 2 ==> method.is_none(),
    {
        if selector == 0 {
            Some(DiffMethod::ByIndex)
        } else if selector == 1 {
            Some(DiffMethod::BpeGreedy00)
        } else {
            None
        }
    }

    /// The name under which the method is offered.
    pub fn label(self) -> (text: &'static str)
        ensures
            self == DiffMethod::ByIndex ==> text@ == "By Index"@,
            self == DiffMethod::BpeGreedy00 ==> text@ == "BPE Greedy 00"@,
    {
        match self {
            DiffMethod::ByIndex => "By Index",
            DiffMethod::BpeGreedy00 => "BPE Greedy 00",
        }
    }
}

/// The two rows of the comparison by tokens, for a vocabulary learned with
/// `budget` merges at most and spans of `min` tokens at least.
pub open spec fn tokenized_rows(b0: Seq<u8>, b1: Seq<u8>, budget: nat, min: nat) -> (Seq<HexCell>, Seq<HexCell>) {
    let merges = build_spec(seq![b0, b1], budget);
    let t0 = encode_spec(merges, b0);
    let t1 = encode_spec(merges, b1);
    let spans = align_spec(t0, t1, min);
    (project_side(spans, t0, merges, 0), project_side(spans, t1, merges, 1))
}

/// The two rows that comparing the buffers by the method gives.
pub open spec fn diff_spec(b0: Seq<u8>, b1: Seq<u8>, method: DiffMethod) -> (Seq<HexCell>, Seq<HexCell>) {
    match method {
        DiffMethod::ByIndex => (
            index_cells(b0, b1, 0, 0, longer(b0, b1)),
            index_cells(b0, b1, 1, 0, longer(b0, b1)),
        ),
        DiffMethod::BpeGreedy00 => tokenized_rows(b0, b1, MERGE_BUDGET as nat, MIN_MATCH_LENGTH as nat),
    }
}

/// Compares the two buffers by tokens.
fn diff_tokenized(buffer0: &[u8], buffer1: &[u8]) -> (rows: (Vec<HexCell>, Vec<HexCell>))
    ensures
        rows.0@ == tokenized_rows(buffer0@, buffer1@, MERGE_BUDGET as nat, MIN_MATCH_LENGTH as nat).0,
        rows.1@ == tokenized_rows(buffer0@, buffer1@, MERGE_BUDGET as nat, MIN_MATCH_LENGTH as nat).1,
{
    let mut corpus: Vec<&[u8]> = Vec::new();
    corpus.push(buffer0);
    corpus.push(buffer1);
    let vocabulary = Vocabulary::build(corpus.as_slice());
    assert(corpus_view(corpus@) =~= seq![buffer0@, buffer1@]);
    let tokens0 = vocabulary.encode(buffer0);
    let tokens1 = vocabulary.encode(buffer1);
    let spans = align(tokens0.as_slice(), tokens1.as_slice(), MIN_MATCH_LENGTH);
    proof {
        assert(tokens0@.len() == tokens0.len() && tokens1@.len() == tokens1.len());
        lemma_align_ordered(tokens0@, tokens1@, MIN_MATCH_LENGTH as nat);
    }
    project(spans.as_slice(), tokens0.as_slice(), tokens1.as_slice(), &vocabulary)
}

/// Compares two buffers by the given method and returns the row of the
/// first and the row of the second.
///
/// Nothing is kept between calls: the same buffers and method give the same
/// rows.
pub fn diff(buffer0: &[u8], buffer1: &[u8], method: DiffMethod) -> (rows: (Vec<HexCell>, Vec<HexCell>))
    ensures
        rows.0@ == diff_spec(buffer0@, buffer1@, method).0,
        rows.1@ == diff_spec(buffer0@, buffer1@, method).1,
{
    match method {
        DiffMethod::ByIndex => diff_by_index(buffer0, buffer1),
        DiffMethod::BpeGreedy00 => diff_tokenized(buffer0, buffer1),
    }
}

/// Whatever the method, each row shows the bytes of its buffer, all of them
/// and in order: no byte is made up, none is left out.
pub proof fn lemma_diff_shows_sources(b0: Seq<u8>, b1: Seq<u8>, method: DiffMethod)
    requires
        b0.len() <= usize::MAX,
        b1.len() <= usize::MAX,
    ensures
        shown_bytes(diff_spec(b0, b1, method).0) == b0,
        shown_bytes(diff_spec(b0, b1, method).1) == b1,
{
    match method {
        DiffMethod::ByIndex => {
            lemma_index_rows_show_sources(b0, b1);
        },
        DiffMethod::BpeGreedy00 => {
            let min = MIN_MATCH_LENGTH as nat;
            let merges = build_spec(seq![b0, b1], MERGE_BUDGET as nat);
            lemma_build_wf(seq![b0, b1], MERGE_BUDGET as nat);
            lemma_tokenized_shows_sources(b0, b1, merges, min);
        },
    }
}

/// For any well-formed merge list and any least span length, the rows of the
/// aligned encodings show the two buffers.
pub proof fn lemma_tokenized_shows_sources(b0: Seq<u8>, b1: Seq<u8>, merges: Seq<Merge>, min: nat)
    requires
        merges_wf(merges),
        b0.len() <= usize::MAX,
        b1.len() <= usize::MAX,
    ensures
        shown_bytes(
            project_side(
                align_spec(encode_spec(merges, b0), encode_spec(merges, b1), min),
                encode_spec(merges, b0),
                merges,
                0,
            ),
        ) == b0,
        shown_bytes(
            project_side(
                align_spec(encode_spec(merges, b0), encode_spec(merges, b1), min),
                encode_spec(merges, b1),
                merges,
                1,
            ),
        ) == b1,
{
    let t0 = encode_spec(merges, b0);
    let t1 = encode_spec(merges, b1);
    let spans = align_spec(t0, t1, min);
    lemma_encode_len(merges, b0);
    lemma_encode_len(merges, b1);
    lemma_align_ordered(t0, t1, min);
    lemma_ordered_sides(spans, t0.len(), t1.len());
    lemma_row_shows_source(spans, t0, merges, 0);
    lemma_row_shows_source(spans, t1, merges, 1);
    lemma_round_trip(merges, b0);
    lemma_round_trip(merges, b1);
}

/// Where the encodings of two buffers have no common run of `min` tokens,
/// the alignment holds no span and each row is one run of `Diff` cells, one
/// for every byte of its buffer.
pub proof fn lemma_dissimilar_all_diff(b0: Seq<u8>, b1: Seq<u8>, merges: Seq<Merge>, min: nat)
    requires
        merges_wf(merges),
        forall|i: int, j: int|
            0 <= i < encode_spec(merges, b0).len() && 0 <= j < encode_spec(merges, b1).len()
                ==> #[trigger] run_len(
                encode_spec(merges, b0),
                encode_spec(merges, b1),
                i,
                j,
                encode_spec(merges, b0).len() as int,
                encode_spec(merges, b1).len() as int,
            ) < min,
    ensures
        align_spec(encode_spec(merges, b0), encode_spec(merges, b1), min) == Seq::<MatchSpan>::empty(),
        project_side(
            align_spec(encode_spec(merges, b0), encode_spec(merges, b1), min),
            encode_spec(merges, b0),
            merges,
            0,
        ) == diff_cells(b0, gap_id(0, 0)),
        project_side(
            align_spec(encode_spec(merges, b0), encode_spec(merges, b1), min),
            encode_spec(merges, b1),
            merges,
            1,
        ) == diff_cells(b1, gap_id(0, 1)),
{
    let t0 = encode_spec(merges, b0);
    let t1 = encode_spec(merges, b1);
    lemma_align_dissimilar(t0, t1, min);
    lemma_no_spans_all_diff(t0, merges, 0);
    lemma_no_spans_all_diff(t1, merges, 1);
    lemma_round_trip(merges, b0);
    lemma_round_trip(merges, b1);
}

} // verus!
