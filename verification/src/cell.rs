//! The unit of output: one classified cell per byte position and source.

use vstd::prelude::*;

verus! {

/// Identifier by which cells of the two rows are correlated.
///
/// Wide enough that three identifiers per position of any buffer fit.
pub type GroupId = u128;

/// One position of one source, as it is to be drawn.
#[derive(Clone, Copy, Debug, PartialEq, Eq, Structural)]
pub enum HexCell {
    /// A byte that the other source holds as well, in the region named by
    /// `source_id`.
    Same { value: u8, source_id: GroupId },
    /// A byte that has no counterpart in the other source.
    Diff { value: u8, source_id: GroupId },
    /// A position at which this source holds no byte.
    Blank,
}

impl HexCell {
    /// The byte that the cell shows, if it shows one.
    pub open spec fn spec_value(self) -> Option<u8> {
        match self {
            HexCell::Same { value, .. } => Some(value),
            HexCell::Diff { value, .. } => Some(value),
            HexCell::Blank => None,
        }
    }

    /// The group that the cell belongs to, if it belongs to one.
    pub open spec fn spec_group(self) -> Option<GroupId> {
        match self {
            HexCell::Same { source_id, .. } => Some(source_id),
            HexCell::Diff { source_id, .. } => Some(source_id),
            HexCell::Blank => None,
        }
    }

    /// The byte that the cell shows, if it shows one.
    #[verifier::when_used_as_spec(spec_value)]
    pub fn value(self) -> (v: Option<u8>)
        ensures
            v == self.spec_value(),
    {
        match self {
            HexCell::Same { value, .. } => Some(value),
            HexCell::Diff { value, .. } => Some(value),
            HexCell::Blank => None,
        }
    }

    /// The group that the cell belongs to, if it belongs to one.
    #[verifier::when_used_as_spec(spec_group)]
    pub fn group(self) -> (g: Option<GroupId>)
        ensures
            g == self.spec_group(),
    {
        match self {
            HexCell::Same { source_id, .. } => Some(source_id),
            HexCell::Diff { source_id, .. } => Some(source_id),
            HexCell::Blank => None,
        }
    }
}

/// The bytes that a row of cells shows, blanks left out.
pub open spec fn shown_bytes(cells: Seq<HexCell>) -> Seq<u8>
    decreases cells.len(),
{
    if cells.len() == 0 {
        Seq::empty()
    } else {
        let rest = shown_bytes(cells.drop_last());
        match cells.last().spec_value() {
            Some(b) => rest.push(b),
            None => rest,
        }
    }
}

/// What two rows show one after the other is what the first shows, then what
/// the second shows.
pub proof fn lemma_shown_concat(a: Seq<HexCell>, b: Seq<HexCell>)
    ensures
        shown_bytes(a + b) == shown_bytes(a) + shown_bytes(b),
    decreases b.len(),
{
    if b.len() > 0 {
        assert((a + b).drop_last() =~= a + b.drop_last());
        lemma_shown_concat(a, b.drop_last());
    }
}

} // verus!
