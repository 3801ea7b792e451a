use hex_diff::matcher::{align, MatchSpan};

fn span(start0: usize, start1: usize, len: usize) -> MatchSpan {
    MatchSpan { start0, start1, len }
}

fn check_ordered(spans: &[MatchSpan], tokens0: &[u32], tokens1: &[u32]) {
    for (k, s) in spans.iter().enumerate() {
        assert!(s.len >= 1);
        assert!(s.start0 + s.len <= tokens0.len());
        assert!(s.start1 + s.len <= tokens1.len());
        assert_eq!(tokens0[s.start0..s.start0 + s.len], tokens1[s.start1..s.start1 + s.len]);
        if k + 1 < spans.len() {
            assert!(s.start0 < spans[k + 1].start0);
            assert!(s.start0 + s.len <= spans[k + 1].start0);
            assert!(s.start1 + s.len <= spans[k + 1].start1);
        }
    }
}

fn check_coverage(spans: &[MatchSpan], len: usize, side: usize) {
    let start = |s: &MatchSpan| if side == 0 { s.start0 } else { s.start1 };
    for idx in 0..len {
        let in_spans = spans.iter().filter(|s| start(s) <= idx && idx < start(s) + s.len).count();
        let mut in_gaps = 0;
        for k in 0..=spans.len() {
            let from = if k == 0 { 0 } else { start(&spans[k - 1]) + spans[k - 1].len };
            let to = if k == spans.len() { len } else { start(&spans[k]) };
            if from <= idx && idx < to {
                in_gaps += 1;
            }
        }
        assert_eq!(in_spans + in_gaps, 1);
    }
}

#[test]
fn the_longest_common_run_becomes_a_span() {
    let tokens0: Vec<u32> = vec![1, 2, 3, 4];
    let tokens1: Vec<u32> = vec![9, 2, 3, 8];
    assert_eq!(align(&tokens0, &tokens1, 1), vec![span(1, 1, 2)]);
}

#[test]
fn left_and_right_of_a_span_are_aligned_too() {
    let tokens0: Vec<u32> = vec![1, 2, 3, 4, 5, 6, 7];
    let tokens1: Vec<u32> = vec![1, 2, 9, 4, 5, 6, 8, 7];
    let spans = align(&tokens0, &tokens1, 1);
    assert_eq!(spans, vec![span(0, 0, 2), span(3, 3, 3), span(6, 7, 1)]);
    check_ordered(&spans, &tokens0, &tokens1);
    check_coverage(&spans, tokens0.len(), 0);
    check_coverage(&spans, tokens1.len(), 1);
}

#[test]
fn of_equally_long_runs_the_first_in_the_first_sequence_is_taken() {
    let tokens0: Vec<u32> = vec![1, 2];
    let tokens1: Vec<u32> = vec![2, 1];
    assert_eq!(align(&tokens0, &tokens1, 1), vec![span(0, 1, 1)]);
    let tokens0: Vec<u32> = vec![5, 6, 0, 7, 8];
    let tokens1: Vec<u32> = vec![7, 8, 1, 5, 6];
    assert_eq!(align(&tokens0, &tokens1, 1), vec![span(0, 3, 2)]);
}

#[test]
fn of_equally_long_runs_the_first_in_the_second_sequence_is_taken() {
    let tokens0: Vec<u32> = vec![3, 4];
    let tokens1: Vec<u32> = vec![3, 4, 0, 3, 4];
    assert_eq!(align(&tokens0, &tokens1, 1), vec![span(0, 0, 2)]);
}

#[test]
fn a_run_below_the_least_length_is_no_span() {
    let tokens0: Vec<u32> = vec![1, 2, 3, 9, 9, 4, 5];
    let tokens1: Vec<u32> = vec![1, 2, 3, 8, 4, 5];
    assert_eq!(align(&tokens0, &tokens1, 1), vec![span(0, 0, 3), span(5, 4, 2)]);
    assert_eq!(align(&tokens0, &tokens1, 2), vec![span(0, 0, 3), span(5, 4, 2)]);
    assert_eq!(align(&tokens0, &tokens1, 3), vec![span(0, 0, 3)]);
    assert_eq!(align(&tokens0, &tokens1, 4), Vec::<MatchSpan>::new());
}

#[test]
fn a_least_length_of_zero_counts_as_one() {
    let tokens0: Vec<u32> = vec![1, 2];
    let tokens1: Vec<u32> = vec![3, 4];
    assert_eq!(align(&tokens0, &tokens1, 0), Vec::<MatchSpan>::new());
    let tokens1: Vec<u32> = vec![3, 2];
    assert_eq!(align(&tokens0, &tokens1, 0), vec![span(1, 1, 1)]);
}

#[test]
fn empty_sequences_have_no_spans() {
    let empty: Vec<u32> = Vec::new();
    let tokens: Vec<u32> = vec![1, 2, 3];
    assert!(align(&empty, &empty, 1).is_empty());
    assert!(align(&empty, &tokens, 1).is_empty());
    assert!(align(&tokens, &empty, 1).is_empty());
}

#[test]
fn identical_sequences_are_one_span() {
    let tokens: Vec<u32> = vec![4, 4, 4, 7, 300, 4];
    assert_eq!(align(&tokens, &tokens, 1), vec![span(0, 0, 6)]);
}

#[test]
fn spans_never_cross() {
    let tokens0: Vec<u32> = vec![1, 2, 3, 4, 5, 6];
    let tokens1: Vec<u32> = vec![4, 5, 6, 1, 2, 3];
    let spans = align(&tokens0, &tokens1, 1);
    assert_eq!(spans, vec![span(0, 3, 3)]);
    check_ordered(&spans, &tokens0, &tokens1);
}

#[test]
fn spans_are_ordered_and_cover_with_the_gaps() {
    let tokens0: Vec<u32> = (0..60).map(|i| ((i * i + 3 * i) % 7) as u32).collect();
    let tokens1: Vec<u32> = (0..75).map(|i| ((i * i * i + i) % 7) as u32).collect();
    for min in 0..5 {
        let spans = align(&tokens0, &tokens1, min);
        check_ordered(&spans, &tokens0, &tokens1);
        check_coverage(&spans, tokens0.len(), 0);
        check_coverage(&spans, tokens1.len(), 1);
        for s in &spans {
            assert!(s.len >= min);
        }
    }
    assert!(!align(&tokens0, &tokens1, 1).is_empty());
}
