use greedy_assembler::overlap::{find_overlap, overlap_of_chars, suffix_matches_prefix};

fn chars(s: &str) -> Vec<char> {
    s.chars().collect()
}

#[test]
fn overlap_is_limited_by_the_bound() {
    // The last four characters are "TACG", the first four "CGTA": the longest
    // overlap of at most four characters is "CG".
    assert_eq!(find_overlap("ATGCGTACG", "CGTACGTAG", 4), 2);
}

#[test]
fn overlap_grows_with_the_bound() {
    assert_eq!(find_overlap("ATGCGTACG", "CGTACGTAG", 5), 2);
    assert_eq!(find_overlap("ATGCGTACG", "CGTACGTAG", 6), 6);
    assert_eq!(find_overlap("ATGCGTACG", "CGTACGTAG", 9), 6);
    assert_eq!(find_overlap("ATGCGTACG", "CGTACGTAG", 1000), 6);
}

#[test]
fn overlap_under_bound_zero_is_zero() {
    assert_eq!(find_overlap("ATGCGTACG", "CGTACGTAG", 0), 0);
    assert_eq!(find_overlap("AAAA", "AAAA", 0), 0);
    assert_eq!(find_overlap("", "", 0), 0);
}

#[test]
fn overlap_with_an_empty_sequence_is_zero() {
    assert_eq!(find_overlap("", "ACGT", 4), 0);
    assert_eq!(find_overlap("ACGT", "", 4), 0);
    assert_eq!(find_overlap("", "", 4), 0);
}

#[test]
fn overlap_never_exceeds_bound_or_lengths() {
    let cases = [
        ("AAAA", "AAAA", 2usize),
        ("AA", "AAAA", 10),
        ("AAAA", "A", 10),
        ("ACGT", "TTTT", 3),
    ];
    for (a, b, k) in cases {
        let len = find_overlap(a, b, k);
        assert!(len <= k);
        assert!(len <= a.chars().count());
        assert!(len <= b.chars().count());
    }
    assert_eq!(find_overlap("AAAA", "AAAA", 2), 2);
    assert_eq!(find_overlap("AA", "AAAA", 10), 2);
    assert_eq!(find_overlap("AAAA", "A", 10), 1);
    assert_eq!(find_overlap("ACGT", "TTTT", 3), 1);
}

#[test]
fn overlap_is_a_true_overlap_and_the_longest() {
    let a = "GATTACAGATTA";
    let b = "GATTACCA";
    let k = 8;
    let len = find_overlap(a, b, k);
    assert_eq!(len, 5);
    assert_eq!(&a[a.len() - len..], &b[..len]);
    for longer in len + 1..=k.min(a.len()).min(b.len()) {
        assert_ne!(&a[a.len() - longer..], &b[..longer]);
    }
}

#[test]
fn the_longest_overlap_wins_over_shorter_ones() {
    // "A", "ABA" and "ABABA" all overlap; the longest within the bound is taken.
    assert_eq!(find_overlap("XABABA", "ABABAY", 5), 5);
    assert_eq!(find_overlap("XABABA", "ABABAY", 4), 3);
    assert_eq!(find_overlap("XABABA", "ABABAY", 2), 1);
}

#[test]
fn overlap_is_directional() {
    assert_eq!(find_overlap("AAAB", "BCCC", 4), 1);
    assert_eq!(find_overlap("BCCC", "AAAB", 4), 0);
}

#[test]
fn overlap_is_case_sensitive() {
    assert_eq!(find_overlap("ACGT", "gtAA", 4), 0);
    assert_eq!(find_overlap("ACGT", "GTAA", 4), 2);
    assert_eq!(find_overlap("ACgt", "gtAA", 4), 2);
}

#[test]
fn overlap_of_a_sequence_with_itself() {
    assert_eq!(find_overlap("ACGT", "ACGT", 4), 4);
    assert_eq!(find_overlap("ACGT", "ACGT", 3), 0);
}

#[test]
fn overlap_without_any_match_is_zero() {
    assert_eq!(find_overlap("AAAA", "CCCC", 4), 0);
}

#[test]
fn overlap_counts_characters_not_bytes() {
    // Each of these letters takes two bytes in UTF-8.
    assert_eq!(find_overlap("xyäö", "äöz", 5), 2);
    assert_eq!(find_overlap("xyäö", "äöz", 1), 0);
    assert_eq!(find_overlap("aé", "éb", 1), 1);
}

#[test]
fn overlap_is_the_same_on_repeated_calls() {
    let first = find_overlap("ATGCGTACG", "CGTACGTAG", 6);
    let second = find_overlap("ATGCGTACG", "CGTACGTAG", 6);
    assert_eq!(first, second);
}

#[test]
fn overlap_of_chars_agrees_with_find_overlap() {
    let a = chars("ATGCGTACG");
    let b = chars("CGTACGTAG");
    for k in 0..12 {
        assert_eq!(overlap_of_chars(&a, &b, k), find_overlap("ATGCGTACG", "CGTACGTAG", k));
    }
}

#[test]
fn suffix_matches_prefix_compares_exactly() {
    let a = chars("ATGCGTACG");
    let b = chars("CGTACGTAG");
    assert!(suffix_matches_prefix(&a, &b, 0));
    assert!(!suffix_matches_prefix(&a, &b, 1));
    assert!(suffix_matches_prefix(&a, &b, 2));
    assert!(!suffix_matches_prefix(&a, &b, 4));
    assert!(suffix_matches_prefix(&a, &b, 6));
    assert!(!suffix_matches_prefix(&a, &b, 9));
}
