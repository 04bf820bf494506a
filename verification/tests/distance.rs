use dir_rank::distance;

#[test]
fn distance_identical_is_zero() {
    assert_eq!(distance("same", "same"), 0);
    assert_eq!(distance("", ""), 0);
    assert_eq!(distance("a", "a"), 0);
}

#[test]
fn distance_against_empty_is_length() {
    assert_eq!(distance("", "abc"), 3);
    assert_eq!(distance("abc", ""), 3);
    assert_eq!(distance("", "x"), 1);
}

#[test]
fn distance_is_symmetric_on_examples() {
    assert_eq!(distance("kitten", "sitting"), 3);
    assert_eq!(distance("sitting", "kitten"), 3);
    assert_eq!(distance("report", "reprot"), 2);
    assert_eq!(distance("reprot", "report"), 2);
}

#[test]
fn distance_counts_single_edits() {
    assert_eq!(distance("abc", "abd"), 1);
    assert_eq!(distance("abc", "ab"), 1);
    assert_eq!(distance("abc", "xabc"), 1);
}

#[test]
fn distance_works_on_code_points() {
    // One substitution between four-code-point strings, not a byte count.
    assert_eq!(distance("caf\u{e9}", "cafe"), 1);
    assert_eq!(distance("caf\u{e9}", "caf\u{e9}"), 0);
}

#[test]
fn distance_transposition_costs_two() {
    assert_eq!(distance("ab", "ba"), 2);
}
