use vstd::prelude::*;

use crate::metric::{
    align_cost, lemma_cell_identity, lemma_cell_insert, lemma_cell_lower, lemma_cell_remove,
    lemma_cell_symmetric, lemma_cell_update, lemma_cell_zero, lev, DELETION_COST, INSERTION_COST,
};

verus! {

/// One single-code-point edit, at a position of the sequence it is applied to.
pub enum Edit {
    Insert { at: nat, ch: char },
    Delete { at: nat },
    Substitute { at: nat, ch: char },
}

/// `e` can be applied to `s`: its position lies within `s`.
pub open spec fn edit_applies(s: Seq<char>, e: Edit) -> bool {
    match e {
        Edit::Insert { at, .. } => at <= s.len(),
        Edit::Delete { at } => at < s.len(),
        Edit::Substitute { at, .. } => at < s.len(),
    }
}

/// `s` after the edit `e`.
pub open spec fn apply_edit(s: Seq<char>, e: Edit) -> Seq<char> {
    match e {
        Edit::Insert { at, ch } => s.insert(at as int, ch),
        Edit::Delete { at } => s.remove(at as int),
        Edit::Substitute { at, ch } => s.update(at as int, ch),
    }
}

/// What the edit `e` costs on `s`; a substitution by the same code point costs nothing.
pub open spec fn edit_cost(s: Seq<char>, e: Edit) -> nat {
    match e {
        Edit::Insert { .. } => INSERTION_COST as nat,
        Edit::Delete { .. } => DELETION_COST as nat,
        Edit::Substitute { at, ch } => align_cost(s[at as int], ch),
    }
}

/// `s` after the edits in order, the first one first.
pub open spec fn apply_edits(s: Seq<char>, edits: Seq<Edit>) -> Seq<char>
    decreases edits.len(),
{
    if edits.len() == 0 {
        s
    } else {
        apply_edit(apply_edits(s, edits.drop_last()), edits.last())
    }
}

/// Each of the edits can be applied where it comes.
pub open spec fn edits_apply(s: Seq<char>, edits: Seq<Edit>) -> bool
    decreases edits.len(),
{
    if edits.len() == 0 {
        true
    } else {
        edits_apply(s, edits.drop_last()) && edit_applies(
            apply_edits(s, edits.drop_last()),
            edits.last(),
        )
    }
}

/// Total cost of the edits, each on the sequence it is applied to.
pub open spec fn edits_cost(s: Seq<char>, edits: Seq<Edit>) -> nat
    decreases edits.len(),
{
    if edits.len() == 0 {
        0
    } else {
        edits_cost(s, edits.drop_last()) + edit_cost(
            apply_edits(s, edits.drop_last()),
            edits.last(),
        )
    }
}

/// Every sequence is at distance zero from itself.
pub proof fn lemma_identity(s: Seq<char>)
    ensures
        lev(s, s) == 0,
{
    lemma_cell_identity(s, s.len());
}

/// The distance from `a` to `b` is the distance from `b` to `a`.
pub proof fn lemma_symmetry(a: Seq<char>, b: Seq<char>)
    ensures
        lev(a, b) == lev(b, a),
{
    lemma_cell_symmetric(a, b, a.len(), b.len());
}

/// Against the empty sequence, the distance is the number of code points of the other side.
pub proof fn lemma_empty(s: Seq<char>)
    ensures
        lev(Seq::empty(), s) == s.len(),
        lev(s, Seq::empty()) == s.len(),
{
}

/// The distance is zero exactly between equal sequences.
pub proof fn lemma_zero_iff_equal(a: Seq<char>, b: Seq<char>)
    ensures
        lev(a, b) == 0 <==> a == b,
{
    if lev(a, b) == 0 {
        lemma_cell_zero(a, b, a.len(), b.len());
        assert(a =~= b);
    }
    if a == b {
        lemma_identity(a);
    }
}

/// One edit of `b` moves it at most the edit's cost away from any `a`.
pub proof fn lemma_edit_bound(a: Seq<char>, b: Seq<char>, e: Edit)
    requires
        edit_applies(b, e),
    ensures
        lev(a, apply_edit(b, e)) <= lev(a, b) + edit_cost(b, e),
{
    match e {
        Edit::Insert { at, ch } => {
            lemma_cell_insert(a, b, at, ch, a.len(), b.len());
        },
        Edit::Delete { at } => {
            lemma_cell_remove(a, b, at, a.len(), (b.len() - 1) as nat);
        },
        Edit::Substitute { at, ch } => {
            if b[at as int] == ch {
                assert(b.update(at as int, ch) =~= b);
            } else {
                lemma_cell_update(a, b, at, ch, a.len(), b.len());
            }
        },
    }
}

/// A single edit of `x` yields a sequence whose distance from `x` is exactly the edit's cost.
pub proof fn lemma_single_edit(x: Seq<char>, e: Edit)
    requires
        edit_applies(x, e),
    ensures
        lev(x, apply_edit(x, e)) == edit_cost(x, e),
{
    let y = apply_edit(x, e);
    lemma_identity(x);
    lemma_edit_bound(x, x, e);
    lemma_cell_lower(x, y, x.len(), y.len());
    match e {
        Edit::Substitute { at, ch } => {
            if x[at as int] != ch {
                lemma_zero_iff_equal(x, y);
            }
        },
        _ => {},
    }
}

/// A sequence of edits of `x` yields a sequence within the edits' total cost of `x`, in
/// either direction.
pub proof fn lemma_multi_edit(x: Seq<char>, edits: Seq<Edit>)
    requires
        edits_apply(x, edits),
    ensures
        lev(x, apply_edits(x, edits)) <= edits_cost(x, edits),
        lev(x, apply_edits(x, edits)) == lev(apply_edits(x, edits), x),
    decreases edits.len(),
{
    if edits.len() == 0 {
        lemma_identity(x);
    } else {
        lemma_multi_edit(x, edits.drop_last());
        lemma_edit_bound(x, apply_edits(x, edits.drop_last()), edits.last());
    }
    lemma_symmetry(x, apply_edits(x, edits));
}

} // verus!
