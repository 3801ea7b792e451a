//! The state of a viewer that shows two sources side by side, and the steps
//! that change it. Drawing is left to the caller: it hands the events in and
//! reads the rows out.

use vstd::prelude::*;
use rand::Rng;
use crate::cell::HexCell;
use crate::engine::{diff, diff_spec, DiffMethod};

verus! {

/// The number of bytes of a source that is made up at random, and of the two
/// sources that a new viewer starts with.
pub const PATTERN_LENGTH: usize = 1000;

/// One of the two sources.
#[derive(Clone, Copy, Debug, PartialEq, Eq, Structural)]
pub enum WhichFile {
    File0,
    File1,
}

/// The text on the control that picks the source for dropped files: one for
/// the source that is picked, another for the one that is not.
pub fn drop_select_text(selected: bool) -> (text: &'static str)
    ensures
        selected ==> text@ == "⬇ Loading dropped files here ⬇"@,
        !selected ==> text@ == "⬇ Load dropped files here ⬇"@,
{
    if selected {
        "⬇ Loading dropped files here ⬇"
    } else {
        "⬇ Load dropped files here ⬇"
    }
}

/// `rand::rngs::ThreadRng`, the handle to the random number generator of a
/// thread. It is carried from `rand::thread_rng` to the draws; nothing is
/// known of what it holds.
#[verifier::external_type_specification]
#[verifier::external_body]
pub struct ExThreadRng(rand::rngs::ThreadRng);

/// `rand::thread_rng` hands out the random number generator of the calling
/// thread, which the system seeds on first use; it fails only where the
/// system has no entropy to give. Nothing is claimed of the generator.
pub assume_specification[ rand::thread_rng ]() -> (rng: rand::rngs::ThreadRng);

/// Draws one byte from the generator, each value as likely as any other.
///
/// Calls `rand::Rng::gen_range` with the range of all byte values, which is
/// not empty, so the call returns. Nothing is claimed of the byte drawn.
#[verifier::external_body]
fn random_byte(rng: &mut rand::rngs::ThreadRng) -> (byte: u8) {
    rng.gen_range(0..=255)
}

/// A source of `PATTERN_LENGTH` bytes drawn at random.
pub fn random_pattern() -> (pattern: Vec<u8>)
    ensures
        pattern@.len() == PATTERN_LENGTH,
{
    let mut rng = rand::thread_rng();
    let mut pattern: Vec<u8> = Vec::new();
    let mut i: usize = 0;
    while i < PATTERN_LENGTH
        invariant
            i <= PATTERN_LENGTH,
            pattern@.len() == i,
        decreases PATTERN_LENGTH - i,
    {
        let byte = random_byte(&mut rng);
        pattern.push(byte);
        i = i + 1;
    }
    pattern
}

/// A source of `PATTERN_LENGTH` zero bytes.
fn zero_pattern() -> (pattern: Vec<u8>)
    ensures
        pattern@ == Seq::new(PATTERN_LENGTH as nat, |i: int| 0u8),
{
    let mut pattern: Vec<u8> = Vec::new();
    let mut i: usize = 0;
    while i < PATTERN_LENGTH
        invariant
            i <= PATTERN_LENGTH,
            pattern@ == Seq::new(i as nat, |i: int| 0u8),
        decreases PATTERN_LENGTH - i,
    {
        pattern.push(0);
        i = i + 1;
    }
    pattern
}

/// The rows for two sources and a method: those of the comparison where both
/// sources are there, else two empty rows.
pub open spec fn rows_for(pattern0: Option<Seq<u8>>, pattern1: Option<Seq<u8>>, method: DiffMethod) -> (
    Seq<HexCell>,
    Seq<HexCell>,
) {
    match (pattern0, pattern1) {
        (Some(first), Some(second)) => diff_spec(first, second, method),
        _ => (Seq::empty(), Seq::empty()),
    }
}

/// The state of the viewer as plain values.
pub struct HexAppView {
    pub source_name0: Option<Seq<char>>,
    pub source_name1: Option<Seq<char>>,
    pub pattern0: Option<Seq<u8>>,
    pub pattern1: Option<Seq<u8>>,
    pub diffs0: Seq<HexCell>,
    pub diffs1: Seq<HexCell>,
    pub file_drop_target: WhichFile,
    pub diff_method: DiffMethod,
}

impl HexAppView {
    /// The rows are those of the sources and the method.
    pub open spec fn in_sync(self) -> bool {
        (self.diffs0, self.diffs1) == rows_for(self.pattern0, self.pattern1, self.diff_method)
    }

    /// The state with its rows computed anew.
    pub open spec fn refreshed(self) -> HexAppView {
        HexAppView {
            diffs0: rows_for(self.pattern0, self.pattern1, self.diff_method).0,
            diffs1: rows_for(self.pattern0, self.pattern1, self.diff_method).1,
            ..self
        }
    }

    /// The state with one source replaced, bytes and name.
    pub open spec fn with_source(self, which: WhichFile, bytes: Seq<u8>, name: Seq<char>) -> HexAppView {
        match which {
            WhichFile::File0 => HexAppView { pattern0: Some(bytes), source_name0: Some(name), ..self },
            WhichFile::File1 => HexAppView { pattern1: Some(bytes), source_name1: Some(name), ..self },
        }
    }

    /// The bytes of one source.
    pub open spec fn pattern(self, which: WhichFile) -> Option<Seq<u8>> {
        match which {
            WhichFile::File0 => self.pattern0,
            WhichFile::File1 => self.pattern1,
        }
    }
}

/// The state that a new viewer starts in: two sources of zero bytes, named
/// `zeroes0` and `zeroes1`, compared position by position, dropped files
/// going to the first.
pub open spec fn initial_view() -> HexAppView {
    let zeroes = Seq::new(PATTERN_LENGTH as nat, |i: int| 0u8);
    (HexAppView {
        source_name0: Some("zeroes0"@),
        source_name1: Some("zeroes1"@),
        pattern0: Some(zeroes),
        pattern1: Some(zeroes),
        diffs0: Seq::empty(),
        diffs1: Seq::empty(),
        file_drop_target: WhichFile::File0,
        diff_method: DiffMethod::ByIndex,
    }).refreshed()
}

/// The viewer's state: the two sources with their names, the rows that
/// comparing them gave, the source that dropped files go to, and the method
/// of comparison.
pub struct HexApp {
    source_name0: Option<String>,
    source_name1: Option<String>,
    pattern0: Option<Vec<u8>>,
    pattern1: Option<Vec<u8>>,
    diffs0: Vec<HexCell>,
    diffs1: Vec<HexCell>,
    file_drop_target: WhichFile,
    diff_method: DiffMethod,
}

impl View for HexApp {
    type V = HexAppView;

    closed spec fn view(&self) -> HexAppView {
        HexAppView {
            source_name0: match self.source_name0 {
                Some(name) => Some(name@),
                None => None,
            },
            source_name1: match self.source_name1 {
                Some(name) => Some(name@),
                None => None,
            },
            pattern0: match self.pattern0 {
                Some(bytes) => Some(bytes@),
                None => None,
            },
            pattern1: match self.pattern1 {
                Some(bytes) => Some(bytes@),
                None => None,
            },
            diffs0: self.diffs0@,
            diffs1: self.diffs1@,
            file_drop_target: self.file_drop_target,
            diff_method: self.diff_method,
        }
    }
}

impl HexApp {
    /// A viewer in its first state.
    pub fn new() -> (app: HexApp)
        ensures
            app@ == initial_view(),
            app@.in_sync(),
    {
        let mut result = HexApp {
            source_name0: Some("zeroes0".to_owned()),
            source_name1: Some("zeroes1".to_owned()),
            pattern0: Some(zero_pattern()),
            pattern1: Some(zero_pattern()),
            diffs0: Vec::new(),
            diffs1: Vec::new(),
            file_drop_target: WhichFile::File0,
            diff_method: DiffMethod::ByIndex,
        };
        result.update_diffs();
        result
    }

    /// Computes the rows anew from the sources and the method. Where a source
    /// is missing both rows are empty.
    pub fn update_diffs(&mut self)
        ensures
            final(self)@ == old(self)@.refreshed(),
            final(self)@.in_sync(),
    {
        let rows = match &self.pattern0 {
            Some(pattern0) => match &self.pattern1 {
                Some(pattern1) => diff(pattern0.as_slice(), pattern1.as_slice(), self.diff_method),
                None => (Vec::new(), Vec::new()),
            },
            None => (Vec::new(), Vec::new()),
        };
        self.diffs0 = rows.0;
        self.diffs1 = rows.1;
    }

    /// Replaces one source, bytes and name, and computes the rows anew.
    pub fn set_source(&mut self, which: WhichFile, bytes: Vec<u8>, name: String)
        ensures
            final(self)@ == old(self)@.with_source(which, bytes@, name@).refreshed(),
            final(self)@.in_sync(),
    {
        match which {
            WhichFile::File0 => {
                self.pattern0 = Some(bytes);
                self.source_name0 = Some(name);
            },
            WhichFile::File1 => {
                self.pattern1 = Some(bytes);
                self.source_name1 = Some(name);
            },
        }
        self.update_diffs();
    }

    /// Takes a dropped file as the source that dropped files go to.
    pub fn load_dropped(&mut self, bytes: Vec<u8>, name: String)
        ensures
            final(self)@ == old(self)@.with_source(old(self)@.file_drop_target, bytes@, name@).refreshed(),
            final(self)@.in_sync(),
    {
        let which = self.file_drop_target;
        self.set_source(which, bytes, name);
    }

    /// Replaces one source by `PATTERN_LENGTH` bytes drawn at random, under
    /// the name `random`.
    pub fn randomize(&mut self, which: WhichFile)
        ensures
            final(self)@.pattern(which).is_some(),
            final(self)@.pattern(which).unwrap().len() == PATTERN_LENGTH,
            final(self)@ == old(self)@.with_source(
                which,
                final(self)@.pattern(which).unwrap(),
                "random"@,
            ).refreshed(),
            final(self)@.in_sync(),
    {
        let pattern = random_pattern();
        self.set_source(which, pattern, "random".to_owned());
    }

    /// Picks the method of comparison and computes the rows anew.
    pub fn select_method(&mut self, method: DiffMethod)
        ensures
            final(self)@ == (HexAppView { diff_method: method, ..old(self)@ }).refreshed(),
            final(self)@.in_sync(),
    {
        self.diff_method = method;
        self.update_diffs();
    }

    /// Picks the source that dropped files go to. Nothing else changes.
    pub fn select_drop_target(&mut self, which: WhichFile)
        ensures
            final(self)@ == (HexAppView { file_drop_target: which, ..old(self)@ }),
    {
        self.file_drop_target = which;
    }

    /// The row of the first source.
    pub fn diffs0(&self) -> (row: &Vec<HexCell>)
        ensures
            row@ == self@.diffs0,
    {
        &self.diffs0
    }

    /// The row of the second source.
    pub fn diffs1(&self) -> (row: &Vec<HexCell>)
        ensures
            row@ == self@.diffs1,
    {
        &self.diffs1
    }

    /// The name of a source, if it has one.
    pub fn source_name(&self, which: WhichFile) -> (name: Option<&String>)
        ensures
            which == WhichFile::File0 ==> (match name {
                Some(n) => self@.source_name0 == Some(n@),
                None => self@.source_name0.is_none(),
            }),
            which == WhichFile::File1 ==> (match name {
                Some(n) => self@.source_name1 == Some(n@),
                None => self@.source_name1.is_none(),
            }),
    {
        match which {
            WhichFile::File0 => self.source_name0.as_ref(),
            WhichFile::File1 => self.source_name1.as_ref(),
        }
    }

    /// The bytes of a source, if it is there.
    pub fn pattern(&self, which: WhichFile) -> (bytes: Option<&Vec<u8>>)
        ensures
            (match bytes {
                Some(b) => self@.pattern(which) == Some(b@),
                None => self@.pattern(which).is_none(),
            }),
    {
        match which {
            WhichFile::File0 => self.pattern0.as_ref(),
            WhichFile::File1 => self.pattern1.as_ref(),
        }
    }

    /// The source that dropped files go to.
    pub fn file_drop_target(&self) -> (which: WhichFile)
        ensures
            which == self@.file_drop_target,
    {
        self.file_drop_target
    }

    /// The method of comparison.
    pub fn diff_method(&self) -> (method: DiffMethod)
        ensures
            method == self@.diff_method,
    {
        self.diff_method
    }
}

} // verus!
