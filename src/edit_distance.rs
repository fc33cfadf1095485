use vstd::prelude::*;

use crate::metric::{
    cell, lemma_cell_upper, lemma_row_floor, lev, DELETION_COST, IDENTITY_COST, INSERTION_COST,
    SUBSTITUTION_COST,
};
use crate::text::code_points;

verus! {

/// `row` is column `j` of the matrix of `a` against `b`: entry `i` is `cell(a, b, i, j)`.
pub open spec fn is_row(row: Seq<usize>, a: Seq<char>, b: Seq<char>, j: nat) -> bool {
    &&& row.len() == a.len() + 1
    &&& forall|i: int| 0 <= i <= a.len() ==> #[trigger] row[i] == cell(a, b, i as nat, j)
}

fn min_of(x: usize, y: usize) -> (r: usize)
    ensures
        r == if x <= y { x } else { y },
{
    if x <= y {
        x
    } else {
        y
    }
}

/// The first row: every prefix of `a` against the empty prefix of `b`.
fn first_row(a: &Vec<char>, b: &Vec<char>) -> (row: Vec<usize>)
    ensures
        is_row(row@, a@, b@, 0),
{
    let mut row: Vec<usize> = Vec::new();
    row.push(0);
    let mut i: usize = 0;
    while i < a.len()
        invariant
            i <= a.len(),
            row@.len() == i + 1,
            forall|k: int| 0 <= k <= i ==> #[trigger] row@[k] == cell(a@, b@, k as nat, 0),
        decreases a.len() - i,
    {
        row.push(i + DELETION_COST);
        i = i + 1;
    }
    row
}

/// From row `j` of the matrix to row `j + 1`, reading the code point `b[j]`.
fn next_row(a: &Vec<char>, b: &Vec<char>, j: usize, prev: &Vec<usize>) -> (row: Vec<usize>)
    requires
        j < b.len(),
        is_row(prev@, a@, b@, j as nat),
    ensures
        is_row(row@, a@, b@, (j + 1) as nat),
{
    let bj = b[j];
    let mut row: Vec<usize> = Vec::new();
    row.push(j + INSERTION_COST);
    let mut i: usize = 0;
    while i < a.len()
        invariant
            i <= a.len(),
            j < b.len(),
            bj == b@[j as int],
            is_row(prev@, a@, b@, j as nat),
            row@.len() == i + 1,
            forall|k: int| 0 <= k <= i ==> #[trigger] row@[k] == cell(a@, b@, k as nat, (j + 1) as nat),
        decreases a.len() - i,
    {
        proof {
            lemma_cell_upper(a@, b@, i as nat, j as nat);
        }
        let cost = if a[i] == bj {
            IDENTITY_COST
        } else {
            SUBSTITUTION_COST
        };
        let diagonal = prev[i] + cost;
        let deletion = row[i].saturating_add(DELETION_COST);
        let insertion = prev[i + 1].saturating_add(INSERTION_COST);
        let value = min_of(diagonal, min_of(deletion, insertion));
        proof {
            lemma_cell_upper(a@, b@, (i + 1) as nat, (j + 1) as nat);
        }
        row.push(value);
        i = i + 1;
    }
    row
}

/// Levenshtein distance from `lhs` to `rhs`, counted in code points.
pub fn distance(lhs: &str, rhs: &str) -> (r: usize)
    ensures
        r == lev(lhs@, rhs@),
{
    let a = code_points(lhs);
    let b = code_points(rhs);
    if a.len() == 0 || b.len() == 0 {
        return a.len() + b.len();
    }
    let mut row = first_row(&a, &b);
    let mut j: usize = 0;
    while j < b.len()
        invariant
            j <= b.len(),
            is_row(row@, a@, b@, j as nat),
        decreases b.len() - j,
    {
        row = next_row(&a, &b, j, &row);
        j = j + 1;
    }
    row[a.len()]
}

/// The smallest entry of `row`.
fn row_min(row: &Vec<usize>) -> (r: usize)
    requires
        row@.len() > 0,
    ensures
        forall|i: int| 0 <= i < row@.len() ==> r <= #[trigger] row@[i],
        exists|i: int| 0 <= i < row@.len() && r == #[trigger] row@[i],
{
    let mut r = row[0];
    let mut i: usize = 1;
    while i < row.len()
        invariant
            1 <= i <= row@.len(),
            forall|k: int| 0 <= k < i ==> r <= #[trigger] row@[k],
            exists|k: int| 0 <= k < i && r == #[trigger] row@[k],
        decreases row@.len() - i,
    {
        if row[i] < r {
            r = row[i];
        }
        i = i + 1;
    }
    r
}

/// Levenshtein distance from `lhs` to `rhs` when it is at most `max`, `None` when it exceeds `max`.
/// Stops as soon as a whole row of the matrix exceeds `max`.
pub fn distance_within(lhs: &str, rhs: &str, max: usize) -> (r: Option<usize>)
    ensures
        r == if lev(lhs@, rhs@) <= max {
            Some(lev(lhs@, rhs@) as usize)
        } else {
            None::<usize>
        },
{
    let a = code_points(lhs);
    let b = code_points(rhs);
    if a.len() == 0 || b.len() == 0 {
        let d = a.len() + b.len();
        return if d <= max {
            Some(d)
        } else {
            None
        };
    }
    let mut row = first_row(&a, &b);
    let mut j: usize = 0;
    while j < b.len()
        invariant
            j <= b.len(),
            is_row(row@, a@, b@, j as nat),
            a@ == lhs@,
            b@ == rhs@,
        decreases b.len() - j,
    {
        row = next_row(&a, &b, j, &row);
        j = j + 1;
        let lo = row_min(&row);
        if lo > max {
            proof {
                assert forall|l: nat| l <= a@.len() implies #[trigger] cell(a@, b@, l, j as nat)
                    >= lo by {
                    assert(row@[l as int] >= lo);
                }
                lemma_row_floor(a@, b@, j as nat, lo as nat, a@.len(), b@.len());
            }
            return None;
        }
    }
    let d = row[a.len()];
    if d <= max {
        Some(d)
    } else {
        None
    }
}

} // verus!
