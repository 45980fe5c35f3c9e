//! The walk over the grid: which cells it stops at, and in what order.

use vstd::arithmetic::div_mod::lemma_fundamental_div_mod;
use vstd::arithmetic::div_mod::lemma_fundamental_div_mod_converse;
use vstd::prelude::*;

verus! {

/// Half of an extent, rounded towards zero.
pub open spec fn spec_half(extent: int) -> int {
    if extent >= 0 {
        extent / 2
    } else {
        -((-extent) / 2)
    }
}

/// How many even numbers there are from `-half` up to `half`, the first
/// counted and the last not.
pub open spec fn spec_even_count(half: int) -> nat {
    if half > 0 {
        half as nat
    } else {
        0
    }
}

/// The even numbers from `-half` upwards: this is the one at place `i`,
/// counted from zero.
pub open spec fn spec_even_at(half: int, i: int) -> int {
    (if half % 2 == 0 {
        -half
    } else {
        1 - half
    }) + 2 * i
}

/// The cell at place `k` of the walk over half extents `half_width` and
/// `half_depth`.
pub open spec fn spec_cell_at(half_width: int, half_depth: int, k: int) -> (i32, i32) {
    let columns = spec_even_count(half_depth) as int;
    (spec_even_at(half_width, k / columns) as i32, spec_even_at(half_depth, k % columns) as i32)
}

/// The cells that a walk over a map `width` by `depth` stops at, in the order
/// of the walk.
///
/// The walk is centred on the origin: it covers `x` from minus half the
/// width up to half the width, and `z` likewise by the depth, the lower end
/// counted and the upper not. It stops where both coordinates are even, and
/// it runs through all `z` of one `x` before it goes on to the next `x`.
pub open spec fn grid_cells(width: int, depth: int) -> Seq<(i32, i32)> {
    let half_width = spec_half(width);
    let half_depth = spec_half(depth);
    Seq::new(
        spec_even_count(half_width) * spec_even_count(half_depth),
        |k: int| spec_cell_at(half_width, half_depth, k),
    )
}

/// Whether the walk over a map `width` by `depth` stops at the cell `(x, z)`.
pub open spec fn is_retained(width: int, depth: int, x: int, z: int) -> bool {
    &&& -spec_half(width) <= x < spec_half(width)
    &&& -spec_half(depth) <= z < spec_half(depth)
    &&& x % 2 == 0
    &&& z % 2 == 0
}

/// The even numbers from `-half` upwards stay below `half`, as many as there
/// are.
pub proof fn lemma_even_at(half: int, i: int)
    requires
        0 <= i < spec_even_count(half),
    ensures
        -half <= spec_even_at(half, i) < half,
        spec_even_at(half, i) % 2 == 0,
{
}

/// A place in a table of `rows` by `columns` lies in one of its rows and one
/// of its columns.
pub proof fn lemma_place_in_table(rows: int, columns: int, k: int)
    requires
        0 <= rows,
        0 <= columns,
        0 <= k < rows * columns,
    ensures
        0 <= k / columns < rows,
        0 <= k % columns < columns,
        k == (k / columns) * columns + k % columns,
{
    assert(rows > 0 && columns > 0) by (nonlinear_arith)
        requires
            0 <= k < rows * columns,
            0 <= rows,
            0 <= columns,
    ;
    lemma_fundamental_div_mod(k, columns);
    assert(0 <= k / columns < rows) by (nonlinear_arith)
        requires
            0 <= k < rows * columns,
            0 < columns,
            k == columns * (k / columns) + k % columns,
            0 <= k % columns < columns,
    ;
    assert((k / columns) * columns == columns * (k / columns)) by (nonlinear_arith);
}

/// A map of extents that are not negative has half the width times half the
/// depth cells to stop at.
pub proof fn lemma_grid_count(width: int, depth: int)
    requires
        0 <= width,
        0 <= depth,
    ensures
        grid_cells(width, depth).len() == (width / 2) * (depth / 2),
{
}

/// Every cell of the walk is one that the walk stops at.
pub proof fn lemma_grid_cells_retained(width: int, depth: int, k: int)
    requires
        i32::MIN <= width <= i32::MAX,
        i32::MIN <= depth <= i32::MAX,
        0 <= k < grid_cells(width, depth).len(),
    ensures
        is_retained(
            width,
            depth,
            grid_cells(width, depth)[k].0 as int,
            grid_cells(width, depth)[k].1 as int,
        ),
{
    let half_width = spec_half(width);
    let half_depth = spec_half(depth);
    let rows = spec_even_count(half_width) as int;
    let columns = spec_even_count(half_depth) as int;
    lemma_place_in_table(rows, columns, k);
    lemma_even_at(half_width, k / columns);
    lemma_even_at(half_depth, k % columns);
}

/// Every cell that the walk stops at is a cell of the walk, and this is its
/// place.
pub proof fn lemma_grid_cells_cover(width: int, depth: int, x: int, z: int) -> (k: int)
    requires
        i32::MIN <= width <= i32::MAX,
        i32::MIN <= depth <= i32::MAX,
        is_retained(width, depth, x, z),
    ensures
        0 <= k < grid_cells(width, depth).len(),
        grid_cells(width, depth)[k] == (x as i32, z as i32),
{
    let half_width = spec_half(width);
    let half_depth = spec_half(depth);
    let rows = spec_even_count(half_width) as int;
    let columns = spec_even_count(half_depth) as int;
    let i = (x - spec_even_at(half_width, 0)) / 2;
    let j = (z - spec_even_at(half_depth, 0)) / 2;
    let k = i * columns + j;
    lemma_fundamental_div_mod_converse(k, columns, i, j);
    assert(0 <= k < rows * columns) by (nonlinear_arith)
        requires
            0 <= i < rows,
            0 <= j < columns,
            k == i * columns + j,
    ;
    k
}

/// The walk goes forwards: a later cell has a larger `x`, or the same `x` and
/// a larger `z`.
pub proof fn lemma_grid_cells_ascend(width: int, depth: int, j: int, k: int)
    requires
        i32::MIN <= width <= i32::MAX,
        i32::MIN <= depth <= i32::MAX,
        0 <= j < k < grid_cells(width, depth).len(),
    ensures
        ({
            let a = grid_cells(width, depth)[j];
            let b = grid_cells(width, depth)[k];
            a.0 < b.0 || (a.0 == b.0 && a.1 < b.1)
        }),
{
    let half_width = spec_half(width);
    let half_depth = spec_half(depth);
    let rows = spec_even_count(half_width) as int;
    let columns = spec_even_count(half_depth) as int;
    lemma_place_in_table(rows, columns, j);
    lemma_place_in_table(rows, columns, k);
    assert(j / columns <= k / columns) by (nonlinear_arith)
        requires
            j < k,
            0 < columns,
    ;
    lemma_even_at(half_width, j / columns);
    lemma_even_at(half_width, k / columns);
    lemma_even_at(half_depth, j % columns);
    lemma_even_at(half_depth, k % columns);
}

/// The cells that a walk over a map `width` by `depth` stops at, in the order
/// of the walk.
pub fn cells(width: i32, depth: i32) -> (v: Vec<(i32, i32)>)
    ensures
        v@ == grid_cells(width as int, depth as int),
{
    let mut v: Vec<(i32, i32)> = Vec::new();
    if width < 2 || depth < 2 {
        return v;
    }
    let half_width: i32 = width / 2;
    let half_depth: i32 = depth / 2;
    let first_x: i32 = if half_width % 2 == 0 {
        -half_width
    } else {
        1 - half_width
    };
    let first_z: i32 = if half_depth % 2 == 0 {
        -half_depth
    } else {
        1 - half_depth
    };
    let mut i: i32 = 0;
    while i < half_width
        invariant
            0 <= i <= half_width,
            0 < half_depth,
            half_width == spec_half(width as int),
            half_depth == spec_half(depth as int),
            first_x == spec_even_at(half_width as int, 0),
            first_z == spec_even_at(half_depth as int, 0),
            v@.len() == i * half_depth,
            forall|k: int|
                0 <= k < v@.len() ==> #[trigger] v@[k] == spec_cell_at(
                    half_width as int,
                    half_depth as int,
                    k,
                ),
        decreases half_width - i,
    {
        let x: i32 = first_x + 2 * i;
        let mut j: i32 = 0;
        while j < half_depth
            invariant
                0 <= i < half_width,
                0 <= j <= half_depth,
                half_width == spec_half(width as int),
                half_depth == spec_half(depth as int),
                first_z == spec_even_at(half_depth as int, 0),
                x == spec_even_at(half_width as int, i as int),
                v@.len() == i * half_depth + j,
                forall|k: int|
                    0 <= k < v@.len() ==> #[trigger] v@[k] == spec_cell_at(
                        half_width as int,
                        half_depth as int,
                        k,
                    ),
            decreases half_depth - j,
        {
            let z: i32 = first_z + 2 * j;
            proof {
                lemma_fundamental_div_mod_converse(
                    i * half_depth + j,
                    half_depth as int,
                    i as int,
                    j as int,
                );
            }
            v.push((x, z));
            j = j + 1;
        }
        assert((i + 1) * half_depth == i * half_depth + half_depth) by (nonlinear_arith);
        i = i + 1;
    }
    v
}

} // verus!
