//! Laying nodes out on a grid: as many rows as the square root of the node
//! count, rounded up, and as many columns as it then takes; node `i` sits in
//! row `i / columns` and column `i % columns`.
use vstd::prelude::*;

verus! {

/// `rows` is the square root of `n`, rounded up.
pub open spec fn is_ceil_sqrt(n: int, rows: int) -> bool {
    rows >= 0 && rows * rows >= n && (rows == 0 || (rows - 1) * (rows - 1) < n)
}

/// The rows and columns of the grid for `num_nodes` nodes: the square root
/// of the count rounded up, and the count divided by that, rounded up.
pub fn grid_shape(num_nodes: usize) -> (shape: (usize, usize))
    requires
        num_nodes >= 1,
    ensures
        is_ceil_sqrt(num_nodes as int, shape.0 as int),
        shape.0 >= 1,
        shape.1 == (num_nodes + shape.0 - 1) / (shape.0 as int),
        shape.0 * shape.1 >= num_nodes,
{
    let n = num_nodes as u128;
    let mut rows: u128 = 0;
    while rows * rows < n
        invariant
            n == num_nodes,
            n <= 0xffff_ffff_ffff_ffff,
            rows <= 0x1_0000_0000,
            rows * rows <= 0x1_0000_0000 * 0x1_0000_0000,
            rows == 0 || (rows - 1) * (rows - 1) < n,
        decreases n - rows,
    {
        assert(rows < 0x1_0000_0000) by (nonlinear_arith)
            requires
                rows * rows < n,
                n <= 0xffff_ffff_ffff_ffff,
                rows <= 0x1_0000_0000,
        ;
        assert(rows < n) by (nonlinear_arith)
            requires
                rows * rows < n,
        ;
        rows += 1;
        assert(rows * rows <= 0x1_0000_0000 * 0x1_0000_0000) by (nonlinear_arith)
            requires
                rows <= 0x1_0000_0000,
        ;
    }
    assert(rows >= 1);
    assert(rows <= n) by (nonlinear_arith)
        requires
            rows >= 1,
            rows == 0 || (rows - 1) * (rows - 1) < n,
    ;
    let r = rows as usize;
    let wide = (n + rows - 1) / rows;
    proof {
        let (ni, ri) = (n as int, rows as int);
        assert(ni + ri - 1 <= ri * ni) by (nonlinear_arith)
            requires
                ri >= 1,
                ni >= 1,
        ;
        vstd::arithmetic::div_mod::lemma_div_is_ordered(ni + ri - 1, ri * ni, ri);
        vstd::arithmetic::div_mod::lemma_div_multiples_vanish(ni, ri);
    }
    let columns = wide as usize;
    proof {
        let c = columns as int;
        vstd::arithmetic::div_mod::lemma_fundamental_div_mod(num_nodes + r - 1, r as int);
        assert(r * c >= num_nodes) by (nonlinear_arith)
            requires
                num_nodes + r - 1 == r * c + (num_nodes + r - 1) % (r as int),
                (num_nodes + r - 1) % (r as int) < r,
        ;
    }
    (r, columns)
}

/// The row and column of each of `num_nodes` nodes on a grid of `columns`
/// columns, in the nodes' order.
pub fn grid_cells(num_nodes: usize, columns: usize) -> (cells: Vec<(usize, usize)>)
    requires
        columns > 0,
    ensures
        cells@.len() == num_nodes,
        forall|i: int|
            0 <= i < num_nodes ==> (#[trigger] cells@[i]).0 == i / (columns as int) && cells@[i].1 == i % (columns as int),
{
    let mut cells: Vec<(usize, usize)> = Vec::new();
    let mut index: usize = 0;
    while index < num_nodes
        invariant
            columns > 0,
            index <= num_nodes,
            cells@.len() == index,
            forall|i: int|
                0 <= i < index ==> (#[trigger] cells@[i]).0 == i / (columns as int) && cells@[i].1 == i % (columns as int),
        decreases num_nodes - index,
    {
        cells.push((index / columns, index % columns));
        index += 1;
    }
    cells
}

/// Each node has a cell of its own, inside the grid: distinct nodes sit in
/// distinct cells, and a grid of `rows` rows and `columns` columns with room
/// for `n` nodes has a row for every one of them.
pub proof fn lemma_cells_distinct_in_grid(n: int, rows: int, columns: int, i: int, j: int)
    requires
        columns > 0,
        rows * columns >= n,
        0 <= i < n,
        0 <= j < n,
    ensures
        i / columns < rows,
        0 <= i % columns < columns,
        i != j ==> (i / columns, i % columns) != (j / columns, j % columns),
{
    vstd::arithmetic::div_mod::lemma_fundamental_div_mod(i, columns);
    vstd::arithmetic::div_mod::lemma_fundamental_div_mod(j, columns);
    assert(i < columns * rows) by (nonlinear_arith)
        requires
            rows * columns >= n,
            i < n,
    ;
    vstd::arithmetic::div_mod::lemma_multiply_divide_lt(i, columns, rows);
}

} // verus!
