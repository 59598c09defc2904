//! Transposition of a fixed 3×3 grid of signed integers.

use vstd::multiset::Multiset;
use vstd::prelude::*;

verus! {

/// A 3×3 grid of signed integers, row-major: `m[i][j]` is row `i`, column `j`.
pub type Grid = [[i32; 3]; 3];

/// `t` holds in cell `(j, i)` what `m` holds in cell `(i, j)`, for every cell.
pub open spec fn is_transpose_of(t: Grid, m: Grid) -> bool {
    forall|i: int, j: int| 0 <= i < 3 && 0 <= j < 3 ==> #[trigger] t[j][i] == m[i][j]
}

/// All the values of `m`, each counted as often as it occurs.
pub open spec fn elements(m: Grid) -> Multiset<i32> {
    m[0]@.to_multiset().add(m[1]@.to_multiset()).add(m[2]@.to_multiset())
}

/// Returns a new grid whose cell `(j, i)` is cell `(i, j)` of `matrix`.
pub fn transpose(matrix: Grid) -> (r: Grid)
    ensures
        is_transpose_of(r, matrix),
{
    let mut transposed: Grid = [[0i32; 3]; 3];
    let mut i: usize = 0;
    while i < 3
        invariant
            i <= 3,
            forall|a: int, b: int| 0 <= a < i && 0 <= b < 3 ==> #[trigger] transposed[b][a] == matrix[a][b],
        decreases 3 - i,
    {
        let mut j: usize = 0;
        while j < 3
            invariant
                i < 3,
                j <= 3,
                forall|a: int, b: int| 0 <= a < i && 0 <= b < 3 ==> #[trigger] transposed[b][a] == matrix[a][b],
                forall|b: int| 0 <= b < j ==> #[trigger] transposed[b][i as int] == matrix[i as int][b],
            decreases 3 - j,
        {
            transposed[j][i] = matrix[i][j];
            j = j + 1;
        }
        i = i + 1;
    }
    transposed
}

/// The values of a row of three, as singletons added in order.
proof fn lemma_row_elements(row: [i32; 3])
    ensures
        row@.to_multiset() =~= Multiset::singleton(row[0]).add(Multiset::singleton(row[1])).add(
            Multiset::singleton(row[2]),
        ),
{
    broadcast use vstd::seq_lib::group_to_multiset_ensures;

    let s0 = Seq::<i32>::empty();
    let s1 = s0.push(row[0]);
    let s2 = s1.push(row[1]);
    let s3 = s2.push(row[2]);
    assert(s0.to_multiset() =~= Multiset::empty()) by {
        assert(s0.to_multiset().len() == 0);
    }
    assert(s3 =~= row@);
}

/// Transposition is an involution: the transpose of the transpose of `m` is `m`.
pub proof fn lemma_transpose_involution(m: Grid, t: Grid, u: Grid)
    requires
        is_transpose_of(t, m),
        is_transpose_of(u, t),
    ensures
        u == m,
{
    assert forall|i: int| 0 <= i < 3 implies #[trigger] u[i] == m[i] by {
        assert(u[i][0] == t[0][i] && u[i][1] == t[1][i] && u[i][2] == t[2][i]);
        assert(u[i] =~= m[i]);
    }
    assert(u =~= m);
}

/// Transposition keeps every value, as often as it occurs: no value is
/// created, dropped or duplicated.
pub proof fn lemma_transpose_keeps_elements(m: Grid, t: Grid)
    requires
        is_transpose_of(t, m),
    ensures
        elements(t) == elements(m),
{
    lemma_row_elements(m[0]);
    lemma_row_elements(m[1]);
    lemma_row_elements(m[2]);
    lemma_row_elements(t[0]);
    lemma_row_elements(t[1]);
    lemma_row_elements(t[2]);
    assert(t[0][0] == m[0][0] && t[0][1] == m[1][0] && t[0][2] == m[2][0]);
    assert(t[1][0] == m[0][1] && t[1][1] == m[1][1] && t[1][2] == m[2][1]);
    assert(t[2][0] == m[0][2] && t[2][1] == m[1][2] && t[2][2] == m[2][2]);
    assert(elements(t) =~= elements(m));
}

} // verus!
