use vstd::prelude::*;

verus! {

/// `a` comes strictly before `b` in code-point order, comparing from position `k` on.
pub open spec fn lex_lt_from(a: Seq<char>, b: Seq<char>, k: nat) -> bool
    decreases a.len() - k,
{
    if k >= b.len() {
        false
    } else if k >= a.len() {
        true
    } else if a[k as int] != b[k as int] {
        (a[k as int] as int) < (b[k as int] as int)
    } else {
        lex_lt_from(a, b, k + 1)
    }
}

/// `a` comes strictly before `b` in code-point order.
pub open spec fn lex_lt(a: Seq<char>, b: Seq<char>) -> bool {
    lex_lt_from(a, b, 0)
}

/// Code-point order is transitive.
pub proof fn lemma_lex_transitive(a: Seq<char>, b: Seq<char>, c: Seq<char>, k: nat)
    requires
        lex_lt_from(a, b, k),
        lex_lt_from(b, c, k),
    ensures
        lex_lt_from(a, c, k),
    decreases a.len() - k,
{
    if k < a.len() && k < b.len() && k < c.len() && a[k as int] == b[k as int] && b[k as int]
        == c[k as int] {
        lemma_lex_transitive(a, b, c, k + 1);
    }
}

/// Two sequences that agree before `k` and neither of which precedes the other from `k` on are equal.
pub proof fn lemma_lex_total(a: Seq<char>, b: Seq<char>, k: nat)
    requires
        k <= a.len(),
        k <= b.len(),
        forall|i: int| 0 <= i < k ==> a[i] == b[i],
        !lex_lt_from(a, b, k),
        !lex_lt_from(b, a, k),
    ensures
        a == b,
    decreases a.len() - k,
{
    if k < a.len() && k < b.len() {
        if a[k as int] == b[k as int] {
            lemma_lex_total(a, b, k + 1);
        }
    } else {
        assert(a =~= b);
    }
}

/// Whether `a` comes strictly before `b` in code-point order.
pub fn lex_less(a: &Vec<char>, b: &Vec<char>) -> (r: bool)
    ensures
        r == lex_lt(a@, b@),
{
    let mut k: usize = 0;
    while k < a.len() && k < b.len() && a[k] == b[k]
        invariant
            k <= a@.len(),
            k <= b@.len(),
            lex_lt(a@, b@) == lex_lt_from(a@, b@, k as nat),
        decreases a@.len() - k,
    {
        k = k + 1;
    }
    if k >= b.len() {
        false
    } else if k >= a.len() {
        true
    } else {
        a[k] < b[k]
    }
}

} // verus!
