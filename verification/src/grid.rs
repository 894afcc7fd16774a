use vstd::prelude::*;

verus! {

/// A flat row-major position stays inside its grid.
pub proof fn lemma_flat_index_bound(i: int, j: int, rows: int, cols: int)
    requires
        0 <= i < rows,
        0 <= j < cols,
    ensures
        0 <= i * cols + j < rows * cols,
{
    assert(0 <= i * cols + j < rows * cols) by (nonlinear_arith)
        requires
            0 <= i < rows,
            0 <= j < cols,
    ;
}

/// Distinct grid cells occupy distinct flat positions: the pairwise fan-out
/// writes each `(i, j)` result to its own slot of the output buffer, so
/// workers for different cells never touch the same position and the
/// parallel dispatch needs no synchronization on the write path.
pub proof fn lemma_flat_cell_injective(i1: int, j1: int, i2: int, j2: int, cols: int)
    requires
        0 <= i1,
        0 <= i2,
        0 <= j1 < cols,
        0 <= j2 < cols,
        i1 * cols + j1 == i2 * cols + j2,
    ensures
        i1 == i2,
        j1 == j2,
{
    assert(i1 == i2 && j1 == j2) by (nonlinear_arith)
        requires
            0 <= i1,
            0 <= i2,
            0 <= j1 < cols,
            0 <= j2 < cols,
            i1 * cols + j1 == i2 * cols + j2,
    ;
}

/// Flat position of cell `(i, j)` in a row-major `rows` by `cols` grid.
pub fn flat_cell(i: usize, j: usize, rows: usize, cols: usize) -> (r: usize)
    requires
        i < rows,
        j < cols,
        rows * cols <= usize::MAX,
    ensures
        r == i * cols + j,
        r < rows * cols,
{
    proof {
        lemma_flat_index_bound(i as int, j as int, rows as int, cols as int);
    }
    i * cols + j
}

} // verus!
