use hex_diff::by_index::{diff_by_index, get_diffs};
use hex_diff::cell::HexCell;

#[test]
fn identical_buffers_give_same_cells_only() {
    let bytes: Vec<u8> = vec![0x10, 0x20, 0x30, 0x30, 0x00, 0xFF];
    let (row0, row1) = diff_by_index(&bytes, &bytes);
    assert_eq!(row0.len(), bytes.len());
    assert_eq!(row1.len(), bytes.len());
    for i in 0..bytes.len() {
        assert_eq!(row0[i], HexCell::Same { value: bytes[i], source_id: 2 });
        assert_eq!(row1[i], row0[i]);
    }
}

#[test]
fn shorter_source_is_blank_past_its_end() {
    let short: Vec<u8> = vec![1, 2, 3, 4];
    let long: Vec<u8> = vec![1, 2, 3, 4, 5, 6];
    let (row0, row1) = diff_by_index(&short, &long);
    assert_eq!(row0.len(), 6);
    assert_eq!(row1.len(), 6);
    for i in 0..4 {
        assert_eq!(row0[i], HexCell::Same { value: short[i], source_id: 2 });
        assert_eq!(row1[i], row0[i]);
    }
    assert_eq!(row0[4], HexCell::Blank);
    assert_eq!(row0[5], HexCell::Blank);
    assert_eq!(row1[4], HexCell::Diff { value: 5, source_id: 13 });
    assert_eq!(row1[5], HexCell::Diff { value: 6, source_id: 13 });

    let (row0, row1) = diff_by_index(&long, &short);
    assert_eq!(row1[4], HexCell::Blank);
    assert_eq!(row1[5], HexCell::Blank);
    assert_eq!(row0[4], HexCell::Diff { value: 5, source_id: 12 });
    assert_eq!(row0[5], HexCell::Diff { value: 6, source_id: 12 });
}

#[test]
fn four_equal_then_four_different() {
    let buffer0: Vec<u8> = vec![0x00, 0x00, 0x00, 0x00, 0x01, 0x01, 0x01, 0x01];
    let buffer1: Vec<u8> = vec![0x00, 0x00, 0x00, 0x00, 0x02, 0x02, 0x02, 0x02];
    let (row0, row1) = diff_by_index(&buffer0, &buffer1);
    assert_eq!(row0.len(), 8);
    assert_eq!(row1.len(), 8);
    let shared = match row0[0] {
        HexCell::Same { value: 0x00, source_id } => source_id,
        other => panic!("position 0 is {:?}", other),
    };
    for i in 0..4 {
        assert_eq!(row0[i], HexCell::Same { value: 0x00, source_id: shared });
        assert_eq!(row1[i], HexCell::Same { value: 0x00, source_id: shared });
    }
    for i in 4..8 {
        let id0 = match row0[i] {
            HexCell::Diff { value: 0x01, source_id } => source_id,
            other => panic!("position {} of the first row is {:?}", i, other),
        };
        let id1 = match row1[i] {
            HexCell::Diff { value: 0x02, source_id } => source_id,
            other => panic!("position {} of the second row is {:?}", i, other),
        };
        assert_ne!(id0, id1);
        assert_ne!(id0, shared);
        assert_ne!(id1, shared);
    }
    assert_eq!(shared, 2);
    assert_eq!(row0[4], HexCell::Diff { value: 0x01, source_id: 12 });
    assert_eq!(row1[4], HexCell::Diff { value: 0x02, source_id: 13 });
}

#[test]
fn groups_follow_the_runs() {
    let buffer0: Vec<u8> = vec![1, 2, 3, 4, 5];
    let buffer1: Vec<u8> = vec![1, 9, 8, 4, 5];
    let (row0, row1) = diff_by_index(&buffer0, &buffer1);
    assert_eq!(
        row0,
        vec![
            HexCell::Same { value: 1, source_id: 2 },
            HexCell::Diff { value: 2, source_id: 3 },
            HexCell::Diff { value: 3, source_id: 3 },
            HexCell::Same { value: 4, source_id: 11 },
            HexCell::Same { value: 5, source_id: 11 },
        ]
    );
    assert_eq!(
        row1,
        vec![
            HexCell::Same { value: 1, source_id: 2 },
            HexCell::Diff { value: 9, source_id: 4 },
            HexCell::Diff { value: 8, source_id: 4 },
            HexCell::Same { value: 4, source_id: 11 },
            HexCell::Same { value: 5, source_id: 11 },
        ]
    );
}

#[test]
fn empty_buffers_give_empty_rows() {
    let empty: Vec<u8> = Vec::new();
    let (row0, row1) = diff_by_index(&empty, &empty);
    assert!(row0.is_empty());
    assert!(row1.is_empty());
}

#[test]
fn one_empty_buffer_gives_blanks_against_diffs() {
    let empty: Vec<u8> = Vec::new();
    let bytes: Vec<u8> = vec![7, 8];
    let (row0, row1) = diff_by_index(&empty, &bytes);
    assert_eq!(row0, vec![HexCell::Blank, HexCell::Blank]);
    assert_eq!(
        row1,
        vec![HexCell::Diff { value: 7, source_id: 1 }, HexCell::Diff { value: 8, source_id: 1 }]
    );
}

#[test]
fn a_range_gives_the_cells_of_its_positions() {
    let buffer0: Vec<u8> = vec![1, 2, 3, 4, 5];
    let buffer1: Vec<u8> = vec![1, 9, 8, 4, 5];
    let (whole0, whole1) = diff_by_index(&buffer0, &buffer1);
    let (part0, part1) = get_diffs(&buffer0, &buffer1, 2..5);
    assert_eq!(part0, whole0[2..5].to_vec());
    assert_eq!(part1, whole1[2..5].to_vec());
    let (past0, past1) = get_diffs(&buffer0, &buffer1, 4..7);
    assert_eq!(
        past0,
        vec![HexCell::Same { value: 5, source_id: 11 }, HexCell::Blank, HexCell::Blank]
    );
    assert_eq!(past1, past0);
    let (none0, none1) = get_diffs(&buffer0, &buffer1, 3..3);
    assert!(none0.is_empty());
    assert!(none1.is_empty());
    let (back0, back1) = get_diffs(&buffer0, &buffer1, 4..2);
    assert!(back0.is_empty());
    assert!(back1.is_empty());
}

#[test]
fn cells_tell_value_and_group() {
    let same = HexCell::Same { value: 3, source_id: 5 };
    let diff = HexCell::Diff { value: 4, source_id: 6 };
    assert_eq!(same.value(), Some(3));
    assert_eq!(same.group(), Some(5));
    assert_eq!(diff.value(), Some(4));
    assert_eq!(diff.group(), Some(6));
    assert_eq!(HexCell::Blank.value(), None);
    assert_eq!(HexCell::Blank.group(), None);
}
