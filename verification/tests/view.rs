use hex_diff::cell::HexCell;
use hex_diff::view::{ascii_label, color, contrast, grid_cell, hex_label, num_rows, CellLabel, Rgb, HEX_GRID_WIDTH};

#[test]
fn groups_take_six_colours_in_turn() {
    assert_eq!(color(0), Rgb { r: 255, g: 128, b: 128 });
    assert_eq!(color(1), Rgb { r: 255, g: 255, b: 128 });
    assert_eq!(color(2), Rgb { r: 128, g: 255, b: 128 });
    assert_eq!(color(3), Rgb { r: 128, g: 255, b: 255 });
    assert_eq!(color(4), Rgb { r: 128, g: 128, b: 255 });
    assert_eq!(color(5), Rgb { r: 255, g: 128, b: 255 });
    assert_eq!(color(6), color(0));
    assert_eq!(color(3 * (usize::MAX as u128) + 2), color((3 * (usize::MAX as u128) + 2) % 6));
}

#[test]
fn contrast_moves_every_channel_by_half() {
    assert_eq!(contrast(Rgb { r: 255, g: 128, b: 0 }), Rgb { r: 127, g: 0, b: 128 });
    assert_eq!(contrast(Rgb { r: 127, g: 1, b: 200 }), Rgb { r: 255, g: 129, b: 72 });
}

#[test]
fn the_grid_has_one_row_more_than_full_rows() {
    assert_eq!(HEX_GRID_WIDTH, 16);
    assert_eq!(num_rows(0, 0), 1);
    assert_eq!(num_rows(15, 3), 1);
    assert_eq!(num_rows(16, 3), 2);
    assert_eq!(num_rows(3, 1000), 63);
    assert_eq!(num_rows(usize::MAX, 0), usize::MAX / 16 + 1);
}

#[test]
fn grid_positions_map_to_cells() {
    let row: Vec<HexCell> = (0..20).map(|i| HexCell::Same { value: i as u8, source_id: 2 }).collect();
    assert_eq!(grid_cell(&row, 0, 0), Some(row[0]));
    assert_eq!(grid_cell(&row, 0, 15), Some(row[15]));
    assert_eq!(grid_cell(&row, 1, 0), Some(row[16]));
    assert_eq!(grid_cell(&row, 1, 3), Some(row[19]));
    assert_eq!(grid_cell(&row, 1, 4), None);
    assert_eq!(grid_cell(&row, 2, 0), None);
    assert_eq!(grid_cell(&row, usize::MAX, 15), None);
    assert_eq!(grid_cell(&row, 0, usize::MAX), None);
    assert_eq!(grid_cell(&[], 0, 0), None);
}

#[test]
fn hex_labels_show_two_digits() {
    assert_eq!(
        hex_label(Some(HexCell::Same { value: 0xAB, source_id: 2 })),
        CellLabel { first: 'A', second: Some('B'), text_color: Some(color(2)), background: None }
    );
    assert_eq!(
        hex_label(Some(HexCell::Diff { value: 0x09, source_id: 3 })),
        CellLabel {
            first: '0',
            second: Some('9'),
            text_color: Some(contrast(color(3))),
            background: Some(color(3)),
        }
    );
    assert_eq!(
        hex_label(Some(HexCell::Same { value: 0xF0, source_id: 0 })),
        CellLabel { first: 'F', second: Some('0'), text_color: Some(color(0)), background: None }
    );
    assert_eq!(
        hex_label(Some(HexCell::Blank)),
        CellLabel { first: '_', second: Some('_'), text_color: None, background: None }
    );
    assert_eq!(hex_label(None), CellLabel { first: 'x', second: Some('x'), text_color: None, background: None });
    for value in 0..=255u8 {
        let label = hex_label(Some(HexCell::Same { value, source_id: 0 }));
        let text: String = [label.first, label.second.unwrap()].iter().collect();
        assert_eq!(text, format!("{:02X}", value));
    }
}

#[test]
fn text_labels_show_the_character_of_the_byte() {
    assert_eq!(
        ascii_label(Some(HexCell::Same { value: b'a', source_id: 2 })),
        CellLabel { first: 'a', second: None, text_color: Some(color(2)), background: None }
    );
    assert_eq!(
        ascii_label(Some(HexCell::Diff { value: 0xE9, source_id: 4 })),
        CellLabel {
            first: '\u{e9}',
            second: None,
            text_color: Some(contrast(color(4))),
            background: Some(color(4)),
        }
    );
    assert_eq!(
        ascii_label(Some(HexCell::Blank)),
        CellLabel { first: '_', second: None, text_color: None, background: None }
    );
    assert_eq!(ascii_label(None), CellLabel { first: 'x', second: None, text_color: None, background: None });
}
