//! What a renderer needs to draw the rows as a grid: the colour of a group,
//! the number of grid rows, the cell at a grid position and its text.

use vstd::prelude::*;
use crate::cell::{GroupId, HexCell};

verus! {

/// The number of cells in one row of the grid.
pub const HEX_GRID_WIDTH: usize = 16;

/// A colour, as red, green and blue.
#[derive(Clone, Copy, Debug, PartialEq, Eq, Structural)]
pub struct Rgb {
    pub r: u8,
    pub g: u8,
    pub b: u8,
}

/// The colour of group `c`: one of six, in turn.
pub open spec fn color_spec(c: GroupId) -> Rgb {
    let hi = 255u8;
    let lo = 128u8;
    if c % 6 == 0 {
        Rgb { r: hi, g: lo, b: lo }
    } else if c % 6 == 1 {
        Rgb { r: hi, g: hi, b: lo }
    } else if c % 6 == 2 {
        Rgb { r: lo, g: hi, b: lo }
    } else if c % 6 == 3 {
        Rgb { r: lo, g: hi, b: hi }
    } else if c % 6 == 4 {
        Rgb { r: lo, g: lo, b: hi }
    } else {
        Rgb { r: hi, g: lo, b: hi }
    }
}

/// The colour that stands out against `color`: every channel moved by half
/// its range, around the end.
pub open spec fn contrast_spec(color: Rgb) -> Rgb {
    Rgb {
        r: ((color.r + 128) % 256) as u8,
        g: ((color.g + 128) % 256) as u8,
        b: ((color.b + 128) % 256) as u8,
    }
}

/// The colour of group `c`.
#[verifier::when_used_as_spec(color_spec)]
pub fn color(c: GroupId) -> (rgb: Rgb)
    ensures
        rgb == color_spec(c),
{
    let hi: u8 = 255;
    let lo: u8 = 128;
    let slot: GroupId = c % 6;
    if slot == 0 {
        Rgb { r: hi, g: lo, b: lo }
    } else if slot == 1 {
        Rgb { r: hi, g: hi, b: lo }
    } else if slot == 2 {
        Rgb { r: lo, g: hi, b: lo }
    } else if slot == 3 {
        Rgb { r: lo, g: hi, b: hi }
    } else if slot == 4 {
        Rgb { r: lo, g: lo, b: hi }
    } else {
        Rgb { r: hi, g: lo, b: hi }
    }
}

fn half_turn(channel: u8) -> (r: u8)
    ensures
        r == (channel + 128) % 256,
{
    if channel < 128 {
        channel + 128
    } else {
        channel - 128
    }
}

/// The colour that stands out against `color`.
#[verifier::when_used_as_spec(contrast_spec)]
pub fn contrast(color: Rgb) -> (rgb: Rgb)
    ensures
        rgb == contrast_spec(color),
{
    Rgb { r: half_turn(color.r), g: half_turn(color.g), b: half_turn(color.b) }
}

/// The number of grid rows for two rows of cells: one more than the full grid
/// rows of the longer one.
pub fn num_rows(len0: usize, len1: usize) -> (rows: usize)
    ensures
        rows == 1 + (if len0 >= len1 { len0 } else { len1 }) / HEX_GRID_WIDTH,
{
    let longer: usize = if len0 >= len1 { len0 } else { len1 };
    1 + longer / HEX_GRID_WIDTH
}

/// The cell at column `column` of grid row `row_index`: cell
/// `row_index * HEX_GRID_WIDTH + column` of the row, if the row is that long.
pub fn grid_cell(diffs: &[HexCell], row_index: usize, column: usize) -> (cell: Option<HexCell>)
    ensures
        row_index * HEX_GRID_WIDTH + column < diffs@.len() ==> cell == Some(
            diffs@[row_index * HEX_GRID_WIDTH + column],
        ),
        row_index * HEX_GRID_WIDTH + column >= diffs@.len() ==> cell.is_none(),
{
    if row_index > diffs.len() / HEX_GRID_WIDTH || column > diffs.len() {
        return None;
    }
    let index: usize = row_index * HEX_GRID_WIDTH;
    if index >= diffs.len() || column >= diffs.len() - index {
        None
    } else {
        Some(diffs[index + column])
    }
}

/// The hexadecimal digit of a value below 16, in upper case.
pub open spec fn hex_digit_spec(n: u8) -> char {
    if n < 10 {
        (48 + n) as char
    } else {
        (55 + n) as char
    }
}

fn hex_digit(n: u8) -> (c: char)
    requires
        n < 16,
    ensures
        c == hex_digit_spec(n),
{
    if n < 10 {
        (48 + n) as char
    } else {
        (55 + n) as char
    }
}

/// How one cell of the grid is drawn: its text, the colour of the text and
/// the colour behind it, where it has one.
#[derive(Clone, Copy, Debug, PartialEq, Eq, Structural)]
pub struct CellLabel {
    pub first: char,
    pub second: Option<char>,
    pub text_color: Option<Rgb>,
    pub background: Option<Rgb>,
}

/// The label of a cell in the hexadecimal part of the grid.
///
/// A byte is shown as its two digits, in the colour of its group if the other
/// source holds it too, else in the contrasting colour on the colour of its
/// group. A blank is `__`, a position past the end of the row `xx`, both
/// without colour.
pub open spec fn hex_label_spec(cell: Option<HexCell>) -> CellLabel {
    match cell {
        Some(HexCell::Same { value, source_id }) => CellLabel {
            first: hex_digit_spec(value / 16),
            second: Some(hex_digit_spec(value % 16)),
            text_color: Some(color_spec(source_id)),
            background: None,
        },
        Some(HexCell::Diff { value, source_id }) => CellLabel {
            first: hex_digit_spec(value / 16),
            second: Some(hex_digit_spec(value % 16)),
            text_color: Some(contrast_spec(color_spec(source_id))),
            background: Some(color_spec(source_id)),
        },
        Some(HexCell::Blank) => CellLabel {
            first: '_',
            second: Some('_'),
            text_color: None,
            background: None,
        },
        None => CellLabel { first: 'x', second: Some('x'), text_color: None, background: None },
    }
}

/// The label of a cell in the text part of the grid: as in the hexadecimal
/// part, with the character of the byte's value in place of its digits, `_`
/// for a blank and `x` past the end.
pub open spec fn ascii_label_spec(cell: Option<HexCell>) -> CellLabel {
    match cell {
        Some(HexCell::Same { value, source_id }) => CellLabel {
            first: value as char,
            second: None,
            text_color: Some(color_spec(source_id)),
            background: None,
        },
        Some(HexCell::Diff { value, source_id }) => CellLabel {
            first: value as char,
            second: None,
            text_color: Some(contrast_spec(color_spec(source_id))),
            background: Some(color_spec(source_id)),
        },
        Some(HexCell::Blank) => CellLabel { first: '_', second: None, text_color: None, background: None },
        None => CellLabel { first: 'x', second: None, text_color: None, background: None },
    }
}

/// The label of a cell in the hexadecimal part of the grid.
#[verifier::when_used_as_spec(hex_label_spec)]
pub fn hex_label(cell: Option<HexCell>) -> (label: CellLabel)
    ensures
        label == hex_label_spec(cell),
{
    match cell {
        Some(HexCell::Same { value, source_id }) => CellLabel {
            first: hex_digit(value / 16),
            second: Some(hex_digit(value % 16)),
            text_color: Some(color(source_id)),
            background: None,
        },
        Some(HexCell::Diff { value, source_id }) => {
            let group = color(source_id);
            CellLabel {
                first: hex_digit(value / 16),
                second: Some(hex_digit(value % 16)),
                text_color: Some(contrast(group)),
                background: Some(group),
            }
        },
        Some(HexCell::Blank) => CellLabel {
            first: '_',
            second: Some('_'),
            text_color: None,
            background: None,
        },
        None => CellLabel { first: 'x', second: Some('x'), text_color: None, background: None },
    }
}

/// The label of a cell in the text part of the grid.
#[verifier::when_used_as_spec(ascii_label_spec)]
pub fn ascii_label(cell: Option<HexCell>) -> (label: CellLabel)
    ensures
        label == ascii_label_spec(cell),
{
    match cell {
        Some(HexCell::Same { value, source_id }) => CellLabel {
            first: value as char,
            second: None,
            text_color: Some(color(source_id)),
            background: None,
        },
        Some(HexCell::Diff { value, source_id }) => {
            let group = color(source_id);
            CellLabel {
                first: value as char,
                second: None,
                text_color: Some(contrast(group)),
                background: Some(group),
            }
        },
        Some(HexCell::Blank) => CellLabel { first: '_', second: None, text_color: None, background: None },
        None => CellLabel { first: 'x', second: None, text_color: None, background: None },
    }
}

} // verus!
