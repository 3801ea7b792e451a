use hex_diff::learning::learn_merges;
use hex_diff::vocabulary::{Vocabulary, MERGE_BUDGET};

fn round_trip(vocabulary: &Vocabulary, bytes: &[u8]) {
    let tokens = vocabulary.encode(bytes);
    assert_eq!(vocabulary.decode(&tokens), bytes.to_vec());
}

#[test]
fn encode_then_decode_gives_the_buffer_back() {
    let first: Vec<u8> = vec![1, 2, 1, 2, 3, 4, 3, 4, 1, 2, 3, 4];
    let second: Vec<u8> = vec![0, 0, 0, 0, 0, 0, 0, 255, 255, 255, 1, 2];
    let vocabulary = Vocabulary::build(&[&first, &second]);
    round_trip(&vocabulary, &first);
    round_trip(&vocabulary, &second);
    round_trip(&vocabulary, &[]);
    round_trip(&vocabulary, &[9]);
    round_trip(&vocabulary, &[1, 2, 1, 2, 77, 0, 0, 0, 3, 4]);
    let all: Vec<u8> = (0..=255).collect();
    round_trip(&vocabulary, &all);
}

#[test]
fn an_empty_corpus_gives_no_merges() {
    let vocabulary = Vocabulary::build(&[]);
    assert!(vocabulary.merges().is_empty());
    let empty: Vec<u8> = Vec::new();
    let vocabulary = Vocabulary::build(&[&empty, &empty]);
    assert!(vocabulary.merges().is_empty());
    assert!(vocabulary.encode(&empty).is_empty());
    assert!(vocabulary.decode(&[]).is_empty());
    assert_eq!(vocabulary.encode(&[4, 4]), vec![4, 4]);
}

#[test]
fn a_buffer_of_one_byte_value_is_merged_down() {
    let bytes: Vec<u8> = vec![7; 8];
    let vocabulary = Vocabulary::build(&[&bytes]);
    assert_eq!(vocabulary.merges(), &vec![(7, 7), (256, 256)]);
    assert_eq!(vocabulary.encode(&bytes), vec![257, 257]);
    assert_eq!(vocabulary.decode(&[257, 257]), bytes);
    assert_eq!(vocabulary.decode(&[256]), vec![7, 7]);
    assert_eq!(vocabulary.bytes_of(257), Some(vec![7, 7, 7, 7]));
}

#[test]
fn of_equally_frequent_pairs_the_first_is_merged() {
    let bytes: Vec<u8> = vec![1, 2, 1, 2, 3, 4, 3, 4];
    let vocabulary = Vocabulary::build(&[&bytes]);
    assert_eq!(vocabulary.merges(), &vec![(1, 2), (3, 4)]);
    assert_eq!(vocabulary.encode(&bytes), vec![256, 256, 257, 257]);

    let swapped: Vec<u8> = vec![3, 4, 3, 4, 1, 2, 1, 2];
    let vocabulary = Vocabulary::build(&[&swapped]);
    assert_eq!(vocabulary.merges(), &vec![(3, 4), (1, 2)]);
}

#[test]
fn the_most_frequent_pair_is_merged_first() {
    let bytes: Vec<u8> = vec![1, 2, 1, 2, 3, 4, 3, 4, 3, 4];
    let vocabulary = Vocabulary::build(&[&bytes]);
    assert_eq!(vocabulary.merges()[0], (3, 4));
}

#[test]
fn pairs_are_counted_over_all_buffers() {
    let first: Vec<u8> = vec![1, 2, 9, 8];
    let second: Vec<u8> = vec![5, 1, 2];
    let vocabulary = Vocabulary::build(&[&first, &second]);
    assert_eq!(vocabulary.merges(), &vec![(1, 2)]);
    assert_eq!(vocabulary.encode(&first), vec![256, 9, 8]);
    assert_eq!(vocabulary.encode(&second), vec![5, 256]);
    let alone = Vocabulary::build(&[&first]);
    assert!(alone.merges().is_empty());
}

#[test]
fn a_pair_does_not_reach_over_the_end_of_a_buffer() {
    let first: Vec<u8> = vec![1, 2, 3];
    let second: Vec<u8> = vec![4, 1, 2];
    let third: Vec<u8> = vec![3, 4];
    let vocabulary = Vocabulary::build(&[&first, &second, &third]);
    assert_eq!(vocabulary.merges(), &vec![(1, 2)]);
}

#[test]
fn of_overlapping_pairs_the_left_one_is_replaced() {
    let bytes: Vec<u8> = vec![5, 5, 5];
    let vocabulary = Vocabulary::build(&[&bytes]);
    assert_eq!(vocabulary.merges(), &vec![(5, 5)]);
    assert_eq!(vocabulary.encode(&bytes), vec![256, 5]);
    assert_eq!(vocabulary.encode(&[5, 5, 5, 5, 5]), vec![256, 256, 5]);
}

#[test]
fn the_budget_ends_the_learning() {
    let bytes: Vec<u8> = vec![7; 64];
    assert_eq!(Vocabulary::build_with_budget(&[&bytes], 0).merges().len(), 0);
    assert_eq!(Vocabulary::build_with_budget(&[&bytes], 1).merges(), &vec![(7, 7)]);
    assert_eq!(Vocabulary::build_with_budget(&[&bytes], 3).merges(), &vec![(7, 7), (256, 256), (257, 257)]);
    let unbounded = Vocabulary::build(&[&bytes]);
    assert_eq!(unbounded.merges().len(), 5);
    assert_eq!(unbounded.encode(&bytes), vec![260, 260]);
    assert_eq!(learn_merges(&[&bytes], MERGE_BUDGET), unbounded.merges().clone());
    let limited = Vocabulary::build_with_budget(&[&bytes], 2);
    round_trip(&limited, &bytes);
    assert_eq!(limited.encode(&bytes), vec![257; 16]);
}

#[test]
fn the_vocabulary_holds_the_bytes_of_the_corpus_and_the_merged_tokens() {
    let first: Vec<u8> = vec![1, 2, 1, 2];
    let second: Vec<u8> = vec![200];
    let vocabulary = Vocabulary::build(&[&first, &second]);
    assert!(vocabulary.contains(1));
    assert!(vocabulary.contains(2));
    assert!(vocabulary.contains(200));
    assert!(!vocabulary.contains(0));
    assert!(!vocabulary.contains(3));
    assert!(!vocabulary.contains(255));
    assert!(vocabulary.contains(256));
    assert!(!vocabulary.contains(257));
    assert_eq!(vocabulary.bytes_of(1), Some(vec![1]));
    assert_eq!(vocabulary.bytes_of(256), Some(vec![1, 2]));
    assert_eq!(vocabulary.bytes_of(3), None);
    assert_eq!(vocabulary.bytes_of(257), None);
}

#[test]
fn a_token_that_no_merge_made_decodes_to_nothing() {
    let bytes: Vec<u8> = vec![1, 2, 1, 2];
    let vocabulary = Vocabulary::build(&[&bytes]);
    assert_eq!(vocabulary.decode(&[1, 300, 256, 4_000_000_000, 2]), vec![1, 1, 2, 2]);
}

#[test]
fn learning_is_repeatable() {
    let first: Vec<u8> = (0..200).map(|i| ((i * 7) % 5) as u8).collect();
    let second: Vec<u8> = (0..150).map(|i| ((i * 3) % 4) as u8).collect();
    let one = Vocabulary::build(&[&first, &second]);
    let two = Vocabulary::build(&[&first, &second]);
    assert_eq!(one.merges(), two.merges());
    assert!(!one.merges().is_empty());
    round_trip(&one, &first);
    round_trip(&one, &second);
    for (k, merge) in one.merges().iter().enumerate() {
        assert!((merge.0 as usize) < 256 + k);
        assert!((merge.1 as usize) < 256 + k);
    }
}

#[test]
fn no_merge_applies_to_an_encoding() {
    let mut state: u64 = 99;
    let mut first: Vec<u8> = Vec::new();
    let mut second: Vec<u8> = Vec::new();
    for i in 0..400 {
        state = (state * 1103515245 + 12345) % 2147483648;
        let byte = ((state >> 16) % 4) as u8;
        if i % 3 == 0 {
            second.push(byte);
        } else {
            first.push(byte);
        }
    }
    let vocabulary = Vocabulary::build_with_budget(&[&first, &second], 20);
    assert_eq!(vocabulary.merges().len(), 20);
    for buffer in [&first, &second, &vec![0u8, 1, 2, 3, 0, 1, 2, 3, 3, 3]] {
        let tokens = vocabulary.encode(buffer);
        for pair in tokens.windows(2) {
            assert!(!vocabulary.merges().contains(&(pair[0], pair[1])));
        }
        assert_eq!(&vocabulary.decode(&tokens), buffer);
    }
}

#[test]
fn learning_goes_on_until_no_pair_occurs_twice() {
    let first: Vec<u8> = vec![1, 2, 3, 1, 2, 3, 1, 2, 4, 4, 4, 4, 1, 2, 3];
    let second: Vec<u8> = vec![4, 4, 1, 2, 3, 9, 9, 9, 1, 2];
    let vocabulary = Vocabulary::build(&[&first, &second]);
    assert!(vocabulary.merges().len() < 4096);
    let streams = [vocabulary.encode(&first), vocabulary.encode(&second)];
    let mut pairs: Vec<(u32, u32)> = Vec::new();
    for stream in &streams {
        for pair in stream.windows(2) {
            pairs.push((pair[0], pair[1]));
        }
    }
    let count = pairs.len();
    pairs.sort();
    pairs.dedup();
    assert_eq!(pairs.len(), count);
}
