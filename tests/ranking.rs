use levenshtein::all_within;

#[test]
fn user_agent_candidates() {
    let candidates = [
        "user-agents",
        "user-agent",
        "User-Agents",
        "loser-agent",
        "language",
        "session-length",
    ];
    let found = all_within(&candidates, "usr-agent", 3);
    assert_eq!(found, vec!["user-agent", "user-agents", "loser-agent"]);
}

#[test]
fn ranking_ignores_input_order() {
    let a = ["loser-agent", "user-agents", "session-length", "user-agent"];
    let b = ["user-agent", "session-length", "user-agents", "loser-agent"];
    assert_eq!(all_within(&a, "usr-agent", 3), all_within(&b, "usr-agent", 3));
}

#[test]
fn ranking_deduplicates() {
    let candidates = ["abd", "abc", "abd", "abc", "abc"];
    assert_eq!(all_within(&candidates, "abc", 1), vec!["abc", "abd"]);
}

#[test]
fn ranking_ties_in_code_point_order() {
    let candidates = ["b", "é", "a", "B", "ab"];
    assert_eq!(all_within(&candidates, "", 1), vec!["B", "a", "b", "é"]);
}

#[test]
fn ranking_empty() {
    let none: [&str; 0] = [];
    assert!(all_within(&none, "x", 5).is_empty());
    assert!(all_within(&["far away"], "x", 0).is_empty());
    assert_eq!(all_within(&["x"], "x", 0), vec!["x"]);
}
