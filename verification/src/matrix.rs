//! 4x4 matrices: transposition, which moves entries without computing on them.

use vstd::prelude::*;

verus! {

/// A 4x4 matrix, row by row.
pub struct Matrix4d<T> {
    pub mat: [[T; 4]; 4],
}

impl<T> Matrix4d<T> {
    /// The entry in row `i` and column `j`.
    pub open spec fn entry(&self, i: int, j: int) -> T {
        self.mat@[i]@[j]
    }
}

/// `t` holds in row `i`, column `j` what `m` holds in row `j`, column `i`.
pub open spec fn is_transpose_of<T>(t: Matrix4d<T>, m: Matrix4d<T>) -> bool {
    forall|i: int, j: int| 0 <= i < 4 && 0 <= j < 4 ==> #[trigger] t.entry(i, j) == m.entry(j, i)
}

/// `a` and `b` hold the same entry everywhere.
pub open spec fn same_entries<T>(a: Matrix4d<T>, b: Matrix4d<T>) -> bool {
    forall|i: int, j: int| 0 <= i < 4 && 0 <= j < 4 ==> #[trigger] a.entry(i, j) == b.entry(i, j)
}

impl<T: Copy> Matrix4d<T> {
    /// The transpose of `e`.
    pub fn transpose(e: &Matrix4d<T>) -> (t: Matrix4d<T>)
        ensures
            is_transpose_of(t, *e),
    {
        let m = &e.mat;
        let r0 = m[0];
        let r1 = m[1];
        let r2 = m[2];
        let r3 = m[3];
        let t = Matrix4d {
            mat: [
                [r0[0], r1[0], r2[0], r3[0]],
                [r0[1], r1[1], r2[1], r3[1]],
                [r0[2], r1[2], r2[2], r3[2]],
                [r0[3], r1[3], r2[3], r3[3]],
            ],
        };
        assert(is_transpose_of(t, *e));
        t
    }
}

/// Transposing twice gives back the matrix one started from.
pub proof fn lemma_transpose_twice<T>(m: Matrix4d<T>, t: Matrix4d<T>, tt: Matrix4d<T>)
    requires
        is_transpose_of(t, m),
        is_transpose_of(tt, t),
    ensures
        same_entries(tt, m),
{
    assert forall|i: int, j: int| 0 <= i < 4 && 0 <= j < 4 implies #[trigger] tt.entry(i, j)
        == m.entry(i, j) by {
        assert(tt.entry(i, j) == t.entry(j, i));
    }
}

} // verus!
