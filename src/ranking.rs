use vstd::prelude::*;

use crate::edit_distance::distance_within;
use crate::lexical::{lemma_lex_total, lemma_lex_transitive, lex_less, lex_lt};
use crate::metric::lev;
use crate::text::code_points;

verus! {

/// `s` ranks strictly before `t` against `target`: it is closer, or as close and earlier in
/// code-point order.
pub open spec fn ranks_before(s: Seq<char>, t: Seq<char>, target: Seq<char>) -> bool {
    ||| lev(s, target) < lev(t, target)
    ||| lev(s, target) == lev(t, target) && lex_lt(s, t)
}

/// The ranking order is transitive.
pub proof fn lemma_ranks_transitive(s: Seq<char>, t: Seq<char>, u: Seq<char>, target: Seq<char>)
    requires
        ranks_before(s, t, target),
        ranks_before(t, u, target),
    ensures
        ranks_before(s, u, target),
{
    if lev(s, target) == lev(t, target) && lev(t, target) == lev(u, target) {
        lemma_lex_transitive(s, t, u, 0);
    }
}

/// A kept entry: its distance to the target, its code points, and where it stands among the
/// candidates.
pub open spec fn entry_ok(
    e: (usize, Vec<char>, usize),
    candidates: Seq<&str>,
    target: Seq<char>,
    max: usize,
) -> bool {
    &&& e.0 == lev(e.1@, target)
    &&& e.0 <= max
    &&& e.2 < candidates.len()
    &&& candidates[e.2 as int]@ == e.1@
}

/// The candidates within `max` of `target`, each once, closest first and in code-point order
/// among equally close ones.
pub fn all_within(candidates: &[&str], target: &str, max: usize) -> (r: Vec<String>)
    ensures
        forall|p: int, q: int|
            0 <= p < q < r@.len() ==> ranks_before(r@[p]@, r@[q]@, target@),
        forall|p: int|
            0 <= p < r@.len() ==> lev(#[trigger] r@[p]@, target@) <= max && exists|j: int|
                0 <= j < candidates@.len() && candidates@[j]@ == r@[p]@,
        forall|j: int|
            0 <= j < candidates@.len() && lev(#[trigger] candidates@[j]@, target@) <= max
                ==> exists|p: int| 0 <= p < r@.len() && r@[p]@ == candidates@[j]@,
{
    let mut kept: Vec<(usize, Vec<char>, usize)> = Vec::new();
    let mut i: usize = 0;
    while i < candidates.len()
        invariant
            i <= candidates@.len(),
            forall|p: int|
                0 <= p < kept@.len() ==> entry_ok(
                    #[trigger] kept@[p],
                    candidates@,
                    target@,
                    max,
                ),
            forall|p: int, q: int|
                0 <= p < q < kept@.len() ==> ranks_before(kept@[p].1@, kept@[q].1@, target@),
            forall|j: int|
                0 <= j < i && lev(#[trigger] candidates@[j]@, target@) <= max ==> exists|p: int|
                    0 <= p < kept@.len() && kept@[p].1@ == candidates@[j]@,
        decreases candidates@.len() - i,
    {
        let found = distance_within(candidates[i], target, max);
        if let Some(d) = found {
            let s = code_points(candidates[i]);
            let mut p: usize = 0;
            while p < kept.len() && (kept[p].0 < d || (kept[p].0 == d && lex_less(&kept[p].1, &s)))
                invariant
                    p <= kept@.len(),
                    d == lev(s@, target@),
                    forall|q: int|
                        0 <= q < kept@.len() ==> entry_ok(
                            #[trigger] kept@[q],
                            candidates@,
                            target@,
                            max,
                        ),
                    forall|q: int|
                        0 <= q < p ==> ranks_before(#[trigger] kept@[q].1@, s@, target@),
                decreases kept@.len() - p,
            {
                p = p + 1;
            }
            let duplicate = p < kept.len() && kept[p].0 == d && !lex_less(&s, &kept[p].1);
            if duplicate {
                proof {
                    lemma_lex_total(s@, kept@[p as int].1@, 0);
                }
            } else {
                let ghost old_kept = kept@;
                proof {
                    assert forall|q: int| p <= q < old_kept.len() implies ranks_before(
                        s@,
                        #[trigger] old_kept[q].1@,
                        target@,
                    ) by {
                        if q > p {
                            lemma_ranks_transitive(s@, old_kept[p as int].1@, old_kept[q].1@, target@);
                        }
                    }
                }
                kept.insert(p, (d, s, i));
                proof {
                    assert forall|a: int, b: int| 0 <= a < b < kept@.len() implies ranks_before(
                        kept@[a].1@,
                        kept@[b].1@,
                        target@,
                    ) by {
                        if a < p && b > p {
                            assert(kept@[a] == old_kept[a]);
                            assert(kept@[b] == old_kept[b - 1]);
                        } else if a == p {
                            assert(kept@[b] == old_kept[b - 1]);
                        } else if b == p {
                            assert(kept@[a] == old_kept[a]);
                        } else if a > p {
                            assert(kept@[a] == old_kept[a - 1]);
                            assert(kept@[b] == old_kept[b - 1]);
                        } else {
                            assert(kept@[a] == old_kept[a]);
                            assert(kept@[b] == old_kept[b]);
                        }
                    }
                    assert forall|j: int|
                        0 <= j <= i && lev(#[trigger] candidates@[j]@, target@) <= max implies exists|
                        q: int,
                    | 0 <= q < kept@.len() && kept@[q].1@ == candidates@[j]@ by {
                        if j < i {
                            let q = choose|q: int|
                                0 <= q < old_kept.len() && old_kept[q].1@ == candidates@[j]@;
                            if q < p {
                                assert(kept@[q] == old_kept[q]);
                            } else {
                                assert(kept@[q + 1] == old_kept[q]);
                            }
                        } else {
                            assert(kept@[p as int].1@ == candidates@[j]@);
                        }
                    }
                }
            }
        }
        i = i + 1;
    }
    let mut r: Vec<String> = Vec::new();
    let mut k: usize = 0;
    while k < kept.len()
        invariant
            k <= kept@.len(),
            r@.len() == k,
            forall|p: int| 0 <= p < k ==> (#[trigger] r@[p])@ == kept@[p].1@,
            forall|p: int|
                0 <= p < kept@.len() ==> entry_ok(
                    #[trigger] kept@[p],
                    candidates@,
                    target@,
                    max,
                ),
        decreases kept@.len() - k,
    {
        r.push(candidates[kept[k].2].to_owned());
        k = k + 1;
    }
    assert forall|j: int|
        0 <= j < candidates@.len() && lev(#[trigger] candidates@[j]@, target@) <= max implies exists|
        p: int,
    | 0 <= p < r@.len() && r@[p]@ == candidates@[j]@ by {
        let p = choose|p: int| 0 <= p < kept@.len() && kept@[p].1@ == candidates@[j]@;
        assert(r@[p]@ == kept@[p].1@);
    }
    assert forall|p: int| 0 <= p < r@.len() implies lev(#[trigger] r@[p]@, target@) <= max
        && exists|j: int| 0 <= j < candidates@.len() && candidates@[j]@ == r@[p]@ by {
        assert(entry_ok(kept@[p], candidates@, target@, max));
    }
    r
}

} // verus!
