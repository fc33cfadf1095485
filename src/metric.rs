use vstd::prelude::*;

verus! {

/// Cost of inserting one code point.
pub const INSERTION_COST: usize = 1;

/// Cost of deleting one code point.
pub const DELETION_COST: usize = 1;

/// Cost of replacing one code point by a different one.
pub const SUBSTITUTION_COST: usize = 1;

/// Cost of aligning two equal code points.
pub const IDENTITY_COST: usize = 0;

/// Cost of aligning `x` with `y`.
pub open spec fn align_cost(x: char, y: char) -> nat {
    if x == y {
        IDENTITY_COST as nat
    } else {
        SUBSTITUTION_COST as nat
    }
}

/// The least of three values.
pub open spec fn min3(x: nat, y: nat, z: nat) -> nat {
    if x <= y && x <= z {
        x
    } else if y <= z {
        y
    } else {
        z
    }
}

/// Edit distance between the first `i` code points of `a` and the first `j` code points of `b`:
/// the cell `(i, j)` of the edit-distance matrix.
pub open spec fn cell(a: Seq<char>, b: Seq<char>, i: nat, j: nat) -> nat
    decreases i + j,
{
    if i == 0 {
        j * INSERTION_COST as nat
    } else if j == 0 {
        i * DELETION_COST as nat
    } else {
        min3(
            cell(a, b, (i - 1) as nat, j) + DELETION_COST as nat,
            cell(a, b, i, (j - 1) as nat) + INSERTION_COST as nat,
            cell(a, b, (i - 1) as nat, (j - 1) as nat) + align_cost(a[i - 1], b[j - 1]),
        )
    }
}

/// Levenshtein distance from `a` to `b`.
pub open spec fn lev(a: Seq<char>, b: Seq<char>) -> nat {
    cell(a, b, a.len(), b.len())
}

/// A cell never exceeds the larger of its two prefix lengths.
pub proof fn lemma_cell_upper(a: Seq<char>, b: Seq<char>, i: nat, j: nat)
    requires
        i <= a.len(),
        j <= b.len(),
    ensures
        cell(a, b, i, j) <= if i >= j { i } else { j },
    decreases i + j,
{
    if i > 0 && j > 0 {
        lemma_cell_upper(a, b, (i - 1) as nat, (j - 1) as nat);
        lemma_cell_upper(a, b, (i - 1) as nat, j);
        lemma_cell_upper(a, b, i, (j - 1) as nat);
    }
}

/// A cell is at least the difference of its two prefix lengths.
pub proof fn lemma_cell_lower(a: Seq<char>, b: Seq<char>, i: nat, j: nat)
    requires
        i <= a.len(),
        j <= b.len(),
    ensures
        cell(a, b, i, j) >= if i >= j { i - j } else { j - i },
    decreases i + j,
{
    if i > 0 && j > 0 {
        lemma_cell_lower(a, b, (i - 1) as nat, (j - 1) as nat);
        lemma_cell_lower(a, b, (i - 1) as nat, j);
        lemma_cell_lower(a, b, i, (j - 1) as nat);
    }
}

/// Every cell at or below row `j` is at least any bound that holds across the whole of row `j`.
pub proof fn lemma_row_floor(a: Seq<char>, b: Seq<char>, j: nat, lo: nat, i: nat, k: nat)
    requires
        forall|l: nat| l <= a.len() ==> #[trigger] cell(a, b, l, j) >= lo,
        i <= a.len(),
        j <= k,
    ensures
        cell(a, b, i, k) >= lo,
    decreases i + k,
{
    if k > j {
        if i == 0 {
            assert(cell(a, b, 0, j) >= lo);
        } else {
            lemma_row_floor(a, b, j, lo, (i - 1) as nat, k);
            lemma_row_floor(a, b, j, lo, i, (k - 1) as nat);
            lemma_row_floor(a, b, j, lo, (i - 1) as nat, (k - 1) as nat);
        }
    }
}

/// A diagonal cell of a sequence against itself is zero.
pub proof fn lemma_cell_identity(a: Seq<char>, i: nat)
    requires
        i <= a.len(),
    ensures
        cell(a, a, i, i) == 0,
    decreases i,
{
    if i > 0 {
        lemma_cell_identity(a, (i - 1) as nat);
    }
}

/// Swapping the two sequences transposes the matrix.
pub proof fn lemma_cell_symmetric(a: Seq<char>, b: Seq<char>, i: nat, j: nat)
    requires
        i <= a.len(),
        j <= b.len(),
    ensures
        cell(a, b, i, j) == cell(b, a, j, i),
    decreases i + j,
{
    if i > 0 && j > 0 {
        lemma_cell_symmetric(a, b, (i - 1) as nat, j);
        lemma_cell_symmetric(a, b, i, (j - 1) as nat);
        lemma_cell_symmetric(a, b, (i - 1) as nat, (j - 1) as nat);
    }
}

/// A zero cell aligns two equal prefixes.
pub proof fn lemma_cell_zero(a: Seq<char>, b: Seq<char>, i: nat, j: nat)
    requires
        i <= a.len(),
        j <= b.len(),
        cell(a, b, i, j) == 0,
    ensures
        i == j,
        forall|k: int| 0 <= k < i ==> a[k] == b[k],
    decreases i + j,
{
    lemma_cell_lower(a, b, i, j);
    if i > 0 && j > 0 {
        lemma_cell_zero(a, b, (i - 1) as nat, (j - 1) as nat);
    }
}

/// A cell depends only on the prefixes it aligns.
pub proof fn lemma_cell_prefix(a: Seq<char>, b: Seq<char>, c: Seq<char>, i: nat, j: nat)
    requires
        i <= a.len(),
        j <= b.len(),
        j <= c.len(),
        forall|k: int| 0 <= k < j ==> b[k] == c[k],
    ensures
        cell(a, b, i, j) == cell(a, c, i, j),
    decreases i + j,
{
    if i > 0 && j > 0 {
        lemma_cell_prefix(a, b, c, (i - 1) as nat, j);
        lemma_cell_prefix(a, b, c, i, (j - 1) as nat);
        lemma_cell_prefix(a, b, c, (i - 1) as nat, (j - 1) as nat);
    }
}

/// One more code point of `b` lowers a cell by at most one.
pub proof fn lemma_cell_step(a: Seq<char>, b: Seq<char>, i: nat, j: nat)
    requires
        i <= a.len(),
        j < b.len(),
    ensures
        cell(a, b, i, j) <= cell(a, b, i, j + 1) + 1,
    decreases i,
{
    if i > 0 {
        lemma_cell_step(a, b, (i - 1) as nat, j);
    }
}

/// Inserting `ch` at `at` in `b` raises the cells past `at` by at most one.
pub proof fn lemma_cell_insert(a: Seq<char>, b: Seq<char>, at: nat, ch: char, i: nat, j: nat)
    requires
        at <= j <= b.len(),
        i <= a.len(),
    ensures
        cell(a, b.insert(at as int, ch), i, j + 1) <= cell(a, b, i, j) + 1,
    decreases i + j,
{
    let c = b.insert(at as int, ch);
    if j == at {
        lemma_cell_prefix(a, b, c, i, j);
    } else if i > 0 {
        lemma_cell_insert(a, b, at, ch, (i - 1) as nat, j);
        lemma_cell_insert(a, b, at, ch, i, (j - 1) as nat);
        lemma_cell_insert(a, b, at, ch, (i - 1) as nat, (j - 1) as nat);
    }
}

/// Removing the code point at `at` from `b` raises the cells past `at` by at most one.
pub proof fn lemma_cell_remove(a: Seq<char>, b: Seq<char>, at: nat, i: nat, j: nat)
    requires
        at <= j < b.len(),
        i <= a.len(),
    ensures
        cell(a, b.remove(at as int), i, j) <= cell(a, b, i, j + 1) + 1,
    decreases i + j,
{
    let c = b.remove(at as int);
    if j == at {
        lemma_cell_prefix(a, b, c, i, j);
        lemma_cell_step(a, b, i, j);
    } else if i > 0 {
        lemma_cell_remove(a, b, at, (i - 1) as nat, j);
        lemma_cell_remove(a, b, at, i, (j - 1) as nat);
        lemma_cell_remove(a, b, at, (i - 1) as nat, (j - 1) as nat);
    }
}

/// Replacing the code point at `at` in `b` raises the cells past `at` by at most one.
pub proof fn lemma_cell_update(a: Seq<char>, b: Seq<char>, at: nat, ch: char, i: nat, j: nat)
    requires
        at < b.len(),
        j <= b.len(),
        i <= a.len(),
    ensures
        cell(a, b.update(at as int, ch), i, j) <= cell(a, b, i, j) + if j > at {
            1nat
        } else {
            0nat
        },
    decreases i + j,
{
    let c = b.update(at as int, ch);
    if j <= at {
        lemma_cell_prefix(a, b, c, i, j);
    } else if i > 0 {
        lemma_cell_update(a, b, at, ch, (i - 1) as nat, j);
        lemma_cell_update(a, b, at, ch, i, (j - 1) as nat);
        lemma_cell_update(a, b, at, ch, (i - 1) as nat, (j - 1) as nat);
    }
}

} // verus!
