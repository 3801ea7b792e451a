use hex_diff::by_index::diff_by_index;
use hex_diff::cell::HexCell;
use hex_diff::engine::{diff, DiffMethod, MIN_MATCH_LENGTH};

fn shown(row: &[HexCell]) -> Vec<u8> {
    row.iter().filter_map(|cell| cell.value()).collect()
}

#[test]
fn by_index_is_the_comparison_by_position() {
    let first: Vec<u8> = vec![1, 2, 3, 4, 5];
    let second: Vec<u8> = vec![1, 9, 3];
    assert_eq!(diff(&first, &second, DiffMethod::ByIndex), diff_by_index(&first, &second));
}

#[test]
fn tokenized_rows_of_four_equal_then_four_different() {
    let buffer0: Vec<u8> = vec![0x00, 0x00, 0x00, 0x00, 0x01, 0x01, 0x01, 0x01];
    let buffer1: Vec<u8> = vec![0x00, 0x00, 0x00, 0x00, 0x02, 0x02, 0x02, 0x02];
    let (row0, row1) = diff(&buffer0, &buffer1, DiffMethod::BpeGreedy00);
    let mut expected0: Vec<HexCell> = Vec::new();
    let mut expected1: Vec<HexCell> = Vec::new();
    for _ in 0..4 {
        expected0.push(HexCell::Same { value: 0x00, source_id: 2 });
        expected1.push(HexCell::Same { value: 0x00, source_id: 2 });
    }
    for _ in 0..4 {
        expected0.push(HexCell::Diff { value: 0x01, source_id: 3 });
        expected1.push(HexCell::Diff { value: 0x02, source_id: 4 });
    }
    assert_eq!(row0, expected0);
    assert_eq!(row1, expected1);
}

#[test]
fn tokenized_rows_of_identical_buffers_are_one_span() {
    let bytes: Vec<u8> = vec![3, 1, 4, 1, 5, 9, 2, 6, 5, 3, 5, 8, 9, 7, 9];
    let (row0, row1) = diff(&bytes, &bytes, DiffMethod::BpeGreedy00);
    let expected: Vec<HexCell> = bytes.iter().map(|&value| HexCell::Same { value, source_id: 2 }).collect();
    assert_eq!(row0, expected);
    assert_eq!(row1, expected);
}

#[test]
fn tokenized_rows_find_a_moved_region() {
    let first: Vec<u8> = vec![10, 20, 30, 40, 50, 60];
    let second: Vec<u8> = vec![99, 98, 10, 20, 30, 40, 50, 60, 97];
    let (row0, row1) = diff(&first, &second, DiffMethod::BpeGreedy00);
    assert_eq!(row0.len(), 6);
    assert_eq!(row1.len(), 9);
    assert!(row0.iter().all(|cell| matches!(cell, HexCell::Same { source_id: 2, .. })));
    assert_eq!(row1[0], HexCell::Diff { value: 99, source_id: 1 });
    assert_eq!(row1[1], HexCell::Diff { value: 98, source_id: 1 });
    assert_eq!(row1[2..8].to_vec(), row0);
    assert_eq!(row1[8], HexCell::Diff { value: 97, source_id: 4 });
}

#[test]
fn every_row_shows_its_buffer() {
    let first: Vec<u8> = (0..300).map(|i| ((i * 7 + i / 13) % 11) as u8).collect();
    let second: Vec<u8> = (0..257).map(|i| ((i * 5 + i / 7) % 11) as u8).collect();
    let empty: Vec<u8> = Vec::new();
    for method in [DiffMethod::ByIndex, DiffMethod::BpeGreedy00] {
        for (a, b) in [(&first, &second), (&second, &first), (&first, &empty), (&empty, &second), (&empty, &empty)] {
            let (row0, row1) = diff(a, b, method);
            assert_eq!(&shown(&row0), a);
            assert_eq!(&shown(&row1), b);
        }
    }
}

#[test]
fn tokenized_rows_keep_same_and_diff_groups_apart() {
    let mut state: u64 = 12345;
    let mut first: Vec<u8> = Vec::new();
    for _ in 0..200 {
        state = (state * 1103515245 + 12345) % 2147483648;
        first.push(((state >> 16) % 7) as u8);
    }
    let mut second: Vec<u8> = first[0..50].to_vec();
    second.extend_from_slice(&[9, 9, 9]);
    second.extend_from_slice(&first[60..200]);
    let (row0, row1) = diff(&first, &second, DiffMethod::BpeGreedy00);
    let same_ids = |row: &[HexCell]| -> Vec<u128> {
        let mut ids: Vec<u128> = row
            .iter()
            .filter_map(|cell| match cell {
                HexCell::Same { source_id, .. } => Some(*source_id),
                _ => None,
            })
            .collect();
        ids.dedup();
        ids
    };
    let diff_ids = |row: &[HexCell]| -> Vec<u128> {
        let mut ids: Vec<u128> = row
            .iter()
            .filter_map(|cell| match cell {
                HexCell::Diff { source_id, .. } => Some(*source_id),
                _ => None,
            })
            .collect();
        ids.dedup();
        ids
    };
    assert!(!same_ids(&row0).is_empty());
    assert_eq!(same_ids(&row0), same_ids(&row1));
    for id in diff_ids(&row0) {
        assert!(!same_ids(&row0).contains(&id));
        assert!(!diff_ids(&row1).contains(&id));
    }
    for id in diff_ids(&row1) {
        assert!(!same_ids(&row1).contains(&id));
    }
    assert!(row0.iter().all(|cell| *cell != HexCell::Blank));
    assert!(row1.iter().all(|cell| *cell != HexCell::Blank));
    for id in same_ids(&row0) {
        let bytes0: Vec<u8> = row0.iter().filter(|c| c.group() == Some(id)).filter_map(|c| c.value()).collect();
        let bytes1: Vec<u8> = row1.iter().filter(|c| c.group() == Some(id)).filter_map(|c| c.value()).collect();
        assert_eq!(bytes0, bytes1);
    }
}

#[test]
fn the_same_call_gives_the_same_rows() {
    let first: Vec<u8> = vec![1, 2, 3, 1, 2, 3, 4, 4, 4, 4];
    let second: Vec<u8> = vec![4, 4, 4, 4, 1, 2, 3, 0];
    for method in [DiffMethod::ByIndex, DiffMethod::BpeGreedy00] {
        assert_eq!(diff(&first, &second, method), diff(&first, &second, method));
    }
}

#[test]
fn a_selector_that_names_no_method_is_refused() {
    assert_eq!(DiffMethod::from_selector(0), Some(DiffMethod::ByIndex));
    assert_eq!(DiffMethod::from_selector(1), Some(DiffMethod::BpeGreedy00));
    assert_eq!(DiffMethod::from_selector(2), None);
    assert_eq!(DiffMethod::from_selector(255), None);
    assert_eq!(DiffMethod::ByIndex.selector(), 0);
    assert_eq!(DiffMethod::BpeGreedy00.selector(), 1);
    assert_eq!(DiffMethod::ByIndex.label(), "By Index");
    assert_eq!(DiffMethod::BpeGreedy00.label(), "BPE Greedy 00");
    assert_eq!(MIN_MATCH_LENGTH, 1);
}

#[test]
fn sources_of_the_viewer_s_size_are_compared() {
    let zeroes: Vec<u8> = vec![0; 1000];
    let (row0, row1) = diff(&zeroes, &zeroes, DiffMethod::BpeGreedy00);
    assert_eq!(row0, vec![HexCell::Same { value: 0, source_id: 2 }; 1000]);
    assert_eq!(row1, row0);

    let mut state: u64 = 7;
    let mut first: Vec<u8> = Vec::new();
    let mut second: Vec<u8> = Vec::new();
    for _ in 0..1000 {
        state = (state * 1103515245 + 12345) % 2147483648;
        first.push((state >> 16) as u8);
        state = (state * 1103515245 + 12345) % 2147483648;
        second.push((state >> 16) as u8);
    }
    for (a, b) in [(&first, &second), (&first, &zeroes), (&zeroes, &second)] {
        let (row0, row1) = diff(a, b, DiffMethod::BpeGreedy00);
        assert_eq!(&shown(&row0), a);
        assert_eq!(&shown(&row1), b);
    }
}
