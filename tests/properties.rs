use levenshtein::{all_within, distance, distance_within};
use quickcheck::QuickCheck;

fn one_string(string: String) -> bool {
    distance(&string, &string) == 0
}

fn two_strings(string1: String, string2: String) -> bool {
    distance(&string1, &string2) == distance(&string2, &string1)
}

fn bounded(string1: String, string2: String, max: u8) -> bool {
    let d = distance(&string1, &string2);
    let max = max as usize;
    distance_within(&string1, &string2, max) == if d <= max { Some(d) } else { None }
}

fn empty_side(string: String) -> bool {
    let n = string.chars().count();
    distance("", &string) == n && distance(&string, "") == n
}

fn ranked(candidates: Vec<String>, target: String, max: u8) -> bool {
    let refs: Vec<&str> = candidates.iter().map(|s| s.as_str()).collect();
    let max = max as usize % 8;
    let found = all_within(&refs, &target, max);
    let mut expected: Vec<(usize, String)> = candidates
        .iter()
        .map(|c| (distance(c, &target), c.clone()))
        .filter(|(d, _)| *d <= max)
        .collect();
    expected.sort();
    expected.dedup();
    let expected: Vec<String> = expected.into_iter().map(|(_, c)| c).collect();
    found == expected
}

#[test]
fn identity_property() {
    QuickCheck::new().quickcheck(one_string as fn(String) -> bool);
}

#[test]
fn symmetry_property() {
    QuickCheck::new().quickcheck(two_strings as fn(String, String) -> bool);
}

#[test]
fn bounded_property() {
    QuickCheck::new().quickcheck(bounded as fn(String, String, u8) -> bool);
}

#[test]
fn empty_side_property() {
    QuickCheck::new().quickcheck(empty_side as fn(String) -> bool);
}

#[test]
fn ranking_property() {
    QuickCheck::new().quickcheck(ranked as fn(Vec<String>, String, u8) -> bool);
}
