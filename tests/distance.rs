use levenshtein::{
    distance, distance_within, DELETION_COST, IDENTITY_COST, INSERTION_COST, SUBSTITUTION_COST,
};

#[test]
fn sitting_kitten() {
    assert_eq!(distance("sitting", "kitten"), SUBSTITUTION_COST * 2 + INSERTION_COST);
}

#[test]
fn sunday_saturday() {
    assert_eq!(distance("Saturday", "Sunday"), INSERTION_COST * 2 + SUBSTITUTION_COST);
}

#[test]
fn saturday_saturday() {
    assert_eq!(distance("Saturday", "Saturday"), 0);
}

#[test]
fn null_eighty() {
    assert_eq!(distance("\u{0}", "\u{80}"), SUBSTITUTION_COST);
    assert_eq!(distance("\u{80}", "\u{0}"), SUBSTITUTION_COST);
}

#[test]
fn cost_constants() {
    assert_eq!(INSERTION_COST, 1);
    assert_eq!(DELETION_COST, 1);
    assert_eq!(SUBSTITUTION_COST, 1);
    assert_eq!(IDENTITY_COST, 0);
}

#[test]
fn exact_values() {
    assert_eq!(distance("sitting", "kitten"), 3);
    assert_eq!(distance("kitten", "sitting"), 3);
    assert_eq!(distance("Saturday", "Sunday"), 3);
    assert_eq!(distance("flaw", "lawn"), 2);
    assert_eq!(distance("abc", "xyz"), 3);
    assert_eq!(distance("a", "b"), 1);
}

#[test]
fn empty_inputs() {
    assert_eq!(distance("", ""), 0);
    assert_eq!(distance("", "abc"), 3);
    assert_eq!(distance("abc", ""), 3);
    assert_eq!(distance("", "héllo"), 5);
    assert_eq!(distance("日本語", ""), 3);
}

#[test]
fn code_points_not_bytes() {
    assert_eq!(distance("é", "e"), 1);
    assert_eq!(distance("日本", "日本語"), 1);
    assert_eq!(distance("\u{10FFFF}", "\u{0}"), 1);
    assert_eq!(distance("ab", "\u{80}"), 2);
}

#[test]
fn identity_examples() {
    for s in ["", "a", "kitten", "ünïcødé", "\u{0}\u{80}\u{10FFFF}"] {
        assert_eq!(distance(s, s), 0);
    }
}

#[test]
fn symmetry_examples() {
    let words = ["", "a", "ab", "kitten", "sitting", "Sunday", "Saturday", "日本語"];
    for a in words {
        for b in words {
            assert_eq!(distance(a, b), distance(b, a));
        }
    }
}

#[test]
fn single_edits() {
    // insertion
    assert_eq!(distance("kitten", "kitteny"), INSERTION_COST);
    assert_eq!(distance("kitten", "xkitten"), INSERTION_COST);
    // deletion
    assert_eq!(distance("kitten", "kiten"), DELETION_COST);
    assert_eq!(distance("kitten", "itten"), DELETION_COST);
    // substitution
    assert_eq!(distance("kitten", "kitzen"), SUBSTITUTION_COST);
    // substitution by the same character
    assert_eq!(distance("kitten", "kitten"), IDENTITY_COST);
}

#[test]
fn multi_edits() {
    // kitten -> sitten (substitute) -> sittin (substitute) -> sitting (insert): cost 3
    let x = "kitten";
    let y = "sitting";
    assert!(distance(x, y) <= 3);
    assert_eq!(distance(x, y), distance(y, x));
    // abc -> abcd -> abd -> xbd: cost 3, but two edits suffice (c -> d, a -> x)
    assert!(distance("abc", "xbd") <= 3);
    assert_eq!(distance("abc", "xbd"), 2);
}

#[test]
fn within_matches_distance() {
    let words = ["", "a", "ab", "kitten", "sitting", "Sunday", "Saturday", "日本語", "user-agent"];
    for a in words {
        for b in words {
            let d = distance(a, b);
            for max in 0..12 {
                let expected = if d <= max { Some(d) } else { None };
                assert_eq!(distance_within(a, b, max), expected);
            }
        }
    }
}

#[test]
fn within_edges() {
    assert_eq!(distance_within("", "", 0), Some(0));
    assert_eq!(distance_within("", "abc", 3), Some(3));
    assert_eq!(distance_within("", "abc", 2), None);
    assert_eq!(distance_within("abc", "", 2), None);
    assert_eq!(distance_within("sitting", "kitten", 3), Some(3));
    assert_eq!(distance_within("sitting", "kitten", 2), None);
    assert_eq!(distance_within("abcdefgh", "zyxwvuts", 0), None);
    assert_eq!(distance_within("same", "same", 0), Some(0));
    assert_eq!(distance_within("a", "b", usize::MAX), Some(1));
}
