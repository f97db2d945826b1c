//! The neighbour relation of a square grid of side `size` whose edges wrap
//! around: cell `i` sits in row `i / size` and column `i % size`.
use vstd::prelude::*;
use vstd::arithmetic::div_mod::{
    lemma_fundamental_div_mod,
    lemma_fundamental_div_mod_converse,
    lemma_mod_add_multiples_vanish,
    lemma_mod_self_0,
    lemma_small_mod,
};
use crate::neighbour_data::{opposite, Neighbours, SLOTS};
use crate::sums::{lemma_sum_ext, lemma_sum_rotate_back, lemma_sum_rotate_forward, lemma_sum_rows, sum};

verus! {

/// The coordinate before `c` on a ring of length `size`.
pub open spec fn wrap_dec(c: int, size: int) -> int {
    (c + size - 1) % size
}

/// The coordinate after `c` on a ring of length `size`.
pub open spec fn wrap_inc(c: int, size: int) -> int {
    (c + 1) % size
}

/// The index of the cell in row `y` and column `x`.
pub open spec fn cell_at(size: int, y: int, x: int) -> int {
    y * size + x
}

/// The cell reached from cell `i` through slot `k` (top, right, bottom, left).
pub open spec fn neighbour(size: int, i: int, k: int) -> int {
    let y = i / size;
    let x = i % size;
    if k == 0 {
        cell_at(size, wrap_dec(y, size), x)
    } else if k == 1 {
        cell_at(size, y, wrap_inc(x, size))
    } else if k == 2 {
        cell_at(size, wrap_inc(y, size), x)
    } else {
        cell_at(size, y, wrap_dec(x, size))
    }
}

/// The side of a grid whose cell count fits in a `u32`.
pub open spec fn valid_size(size: int) -> bool {
    0 < size && size * size <= u32::MAX
}

/// The neighbour list of every cell of a grid of side `size`.
pub open spec fn is_topology(size: int, edges: Seq<Neighbours>) -> bool {
    &&& edges.len() == size * size
    &&& forall|i: int| 0 <= i < size * size ==> (#[trigger] edges[i]).size == SLOTS
    &&& forall|i: int, k: int|
        0 <= i < size * size && 0 <= k < 4 ==> #[trigger] edges[i].slot(k) == neighbour(size, i, k)
}

proof fn lemma_wrap(c: int, size: int)
    requires
        0 <= c < size,
    ensures
        wrap_dec(c, size) == if c == 0 {
            size - 1
        } else {
            c - 1
        },
        wrap_inc(c, size) == if c == size - 1 {
            0
        } else {
            c + 1
        },
{
    if c == 0 {
        lemma_small_mod((size - 1) as nat, size as nat);
    } else {
        lemma_mod_add_multiples_vanish(c - 1, size);
        lemma_small_mod((c - 1) as nat, size as nat);
    }
    if c == size - 1 {
        lemma_mod_self_0(size);
    } else {
        lemma_small_mod((c + 1) as nat, size as nat);
    }
}

proof fn lemma_cell_at(size: int, y: int, x: int)
    requires
        0 <= y < size,
        0 <= x < size,
    ensures
        cell_at(size, y, x) / size == y,
        cell_at(size, y, x) % size == x,
        0 <= cell_at(size, y, x) < size * size,
{
    lemma_fundamental_div_mod_converse(cell_at(size, y, x), size, y, x);
    assert(0 <= y * size + x < size * size) by (nonlinear_arith)
        requires
            0 <= y < size,
            0 <= x < size,
    ;
}

proof fn lemma_coords(size: int, i: int)
    requires
        0 < size,
        0 <= i < size * size,
    ensures
        i == cell_at(size, i / size, i % size),
        0 <= i / size < size,
        0 <= i % size < size,
{
    lemma_fundamental_div_mod(i, size);
    assert(0 <= i % size < size) by {
        vstd::arithmetic::div_mod::lemma_mod_pos_bound(i, size);
    }
    let y = i / size;
    assert(y * size == size * y) by (nonlinear_arith);
    assert(0 <= y < size) by (nonlinear_arith)
        requires
            i == size * y + i % size,
            0 <= i % size < size,
            0 <= i < size * size,
            0 < size,
    ;
}

/// Every neighbour of a cell lies in the grid.
pub proof fn lemma_neighbour_in_grid(size: int, i: int, k: int)
    requires
        0 < size,
        0 <= i < size * size,
        0 <= k < 4,
    ensures
        0 <= neighbour(size, i, k) < size * size,
{
    lemma_coords(size, i);
    let y = i / size;
    let x = i % size;
    lemma_wrap(y, size);
    lemma_wrap(x, size);
    lemma_cell_at(size, wrap_dec(y, size), x);
    lemma_cell_at(size, y, wrap_inc(x, size));
    lemma_cell_at(size, wrap_inc(y, size), x);
    lemma_cell_at(size, y, wrap_dec(x, size));
}

/// Going through slot `k` and back through the opposite slot returns to the
/// starting cell: each move has exactly one way back.
pub proof fn lemma_reverse_slot(size: int, i: int, k: int)
    requires
        0 < size,
        0 <= i < size * size,
        0 <= k < 4,
    ensures
        neighbour(size, neighbour(size, i, k), opposite(k)) == i,
{
    lemma_coords(size, i);
    let y = i / size;
    let x = i % size;
    lemma_wrap(y, size);
    lemma_wrap(x, size);
    let yd = wrap_dec(y, size);
    let yi = wrap_inc(y, size);
    let xd = wrap_dec(x, size);
    let xi = wrap_inc(x, size);
    lemma_cell_at(size, yd, x);
    lemma_cell_at(size, y, xi);
    lemma_cell_at(size, yi, x);
    lemma_cell_at(size, y, xd);
    lemma_wrap(yd, size);
    lemma_wrap(yi, size);
    lemma_wrap(xd, size);
    lemma_wrap(xi, size);
}

/// On a grid of side three or more the four neighbours of a cell are four
/// distinct cells.
pub proof fn lemma_distinct_slots(size: int, i: int)
    requires
        3 <= size,
        0 <= i < size * size,
    ensures
        forall|a: int, b: int|
            0 <= a < 4 && 0 <= b < 4 && a != b ==> neighbour(size, i, a) != neighbour(size, i, b),
        forall|a: int| 0 <= a < 4 ==> neighbour(size, i, a) != i,
{
    lemma_coords(size, i);
    let y = i / size;
    let x = i % size;
    lemma_wrap(y, size);
    lemma_wrap(x, size);
    let yd = wrap_dec(y, size);
    let yi = wrap_inc(y, size);
    let xd = wrap_dec(x, size);
    let xi = wrap_inc(x, size);
    lemma_cell_at(size, yd, x);
    lemma_cell_at(size, y, xi);
    lemma_cell_at(size, yi, x);
    lemma_cell_at(size, y, xd);
}

/// On a grid of one cell every slot leads back to that cell.
pub proof fn lemma_single_cell_self_loops(k: int)
    requires
        0 <= k < 4,
    ensures
        neighbour(1, 0, k) == 0,
{
    lemma_coords(1, 0);
    lemma_wrap(0, 1);
}

/// The cell in the top row and first column has, as its top neighbour, the
/// cell in the bottom row and first column; as its left one, the last cell
/// of the top row.
pub proof fn lemma_corner_wraps(size: int)
    requires
        0 < size,
    ensures
        neighbour(size, 0, 0) == cell_at(size, size - 1, 0),
        neighbour(size, 0, 3) == cell_at(size, 0, size - 1),
{
    lemma_cell_at(size, 0, 0);
    lemma_wrap(0, size);
}

/// Reading every cell through the same slot visits each cell exactly once, so
/// a sum over the grid is unchanged when each term is taken at the neighbour
/// through slot `k` instead.
pub proof fn lemma_sum_through_slot(size: int, f: spec_fn(int) -> int, k: int)
    requires
        0 < size,
        0 <= k < 4,
    ensures
        sum(size * size, |i: int| f(neighbour(size, i, k))) == sum(size * size, f),
{
    let h = |i: int| f(neighbour(size, i, k));
    let row_f = |y: int| sum(size, |x: int| f(y * size + x));
    let row_h = |y: int| sum(size, |x: int| h(y * size + x));
    lemma_sum_rows(size, size, h);
    lemma_sum_rows(size, size, f);
    if k == 0 || k == 2 {
        let turn = |y: int|
            if k == 0 {
                if y == 0 {
                    size - 1
                } else {
                    y - 1
                }
            } else {
                if y == size - 1 {
                    0
                } else {
                    y + 1
                }
            };
        assert forall|y: int| 0 <= y < size implies #[trigger] row_h(y) == row_f(turn(y)) by {
            assert forall|x: int| 0 <= x < size implies #[trigger] h(y * size + x) == f(
                turn(y) * size + x,
            ) by {
                lemma_cell_at(size, y, x);
                lemma_wrap(y, size);
            }
            lemma_sum_ext(size, |x: int| h(y * size + x), |x: int| f(turn(y) * size + x));
        }
        lemma_sum_ext(size, row_h, |y: int| row_f(turn(y)));
        if k == 0 {
            lemma_sum_ext(
                size,
                |y: int| row_f(turn(y)),
                |y: int|
                    row_f(
                        if y == 0 {
                            size - 1
                        } else {
                            y - 1
                        },
                    ),
            );
            lemma_sum_rotate_back(size, row_f);
        } else {
            lemma_sum_ext(
                size,
                |y: int| row_f(turn(y)),
                |y: int|
                    row_f(
                        if y == size - 1 {
                            0
                        } else {
                            y + 1
                        },
                    ),
            );
            lemma_sum_rotate_forward(size, row_f);
        }
    } else {
        let turn = |x: int|
            if k == 1 {
                if x == size - 1 {
                    0
                } else {
                    x + 1
                }
            } else {
                if x == 0 {
                    size - 1
                } else {
                    x - 1
                }
            };
        assert forall|y: int| 0 <= y < size implies #[trigger] row_h(y) == row_f(y) by {
            let g = |x: int| f(y * size + x);
            assert forall|x: int| 0 <= x < size implies #[trigger] h(y * size + x) == g(turn(x)) by {
                lemma_cell_at(size, y, x);
                lemma_wrap(x, size);
            }
            lemma_sum_ext(size, |x: int| h(y * size + x), |x: int| g(turn(x)));
            if k == 1 {
                lemma_sum_ext(
                    size,
                    |x: int| g(turn(x)),
                    |x: int|
                        g(
                            if x == size - 1 {
                                0
                            } else {
                                x + 1
                            },
                        ),
                );
                lemma_sum_rotate_forward(size, g);
            } else {
                lemma_sum_ext(
                    size,
                    |x: int| g(turn(x)),
                    |x: int|
                        g(
                            if x == 0 {
                                size - 1
                            } else {
                                x - 1
                            },
                        ),
                );
                lemma_sum_rotate_back(size, g);
            }
            assert(row_f(y) == sum(size, g));
        }
        lemma_sum_ext(size, row_h, row_f);
    }
}

/// The neighbour list of cell `index`, in slot order.
pub fn grid_neighbours(size: u32, index: u32) -> (r: Neighbours)
    requires
        valid_size(size as int),
        index < size * size,
    ensures
        r.size == SLOTS,
        forall|k: int| 0 <= k < 4 ==> #[trigger] r.slot(k) == neighbour(size as int, index as int, k),
{
    proof {
        lemma_coords(size as int, index as int);
        assert(size <= 65535) by (nonlinear_arith)
            requires
                0 < size,
                size * size <= u32::MAX,
        ;
        lemma_neighbour_in_grid(size as int, index as int, 0);
        lemma_neighbour_in_grid(size as int, index as int, 1);
        lemma_neighbour_in_grid(size as int, index as int, 2);
        lemma_neighbour_in_grid(size as int, index as int, 3);
    }
    let y = index / size;
    let x = index % size;
    let top = (y + size - 1) % size * size + x;
    let right = y * size + (x + 1) % size;
    let bottom = (y + 1) % size * size + x;
    let left = y * size + (x + size - 1) % size;
    Neighbours::new(top, right, bottom, left)
}

/// The neighbour lists of all cells of a grid of side `size`, indexed by cell.
pub fn topology_2d(size: u32) -> (r: Vec<Neighbours>)
    requires
        valid_size(size as int),
    ensures
        is_topology(size as int, r@),
{
    let n: u32 = size * size;
    let mut edges: Vec<Neighbours> = Vec::new();
    let mut i: u32 = 0;
    while i < n
        invariant
            valid_size(size as int),
            n == size * size,
            i <= n,
            edges.len() == i,
            forall|j: int| 0 <= j < i ==> (#[trigger] edges@[j]).size == SLOTS,
            forall|j: int, k: int|
                0 <= j < i && 0 <= k < 4 ==> #[trigger] edges@[j].slot(k) == neighbour(
                    size as int,
                    j,
                    k,
                ),
        decreases n - i,
    {
        let e = grid_neighbours(size, i);
        edges.push(e);
        i = i + 1;
    }
    edges
}

/// The side of a cubic grid whose cell count fits in a `u32`.
pub open spec fn valid_size_3d(size: int) -> bool {
    0 < size && size * size * size <= u32::MAX
}

/// The index of the cell in layer `z`, row `y` and column `x` of a cube.
pub open spec fn cell_at_3d(size: int, z: int, y: int, x: int) -> int {
    z * (size * size) + y * size + x
}

/// The cell reached from cell `i` of a cube through slot `k`, in the order
/// top, right, bottom, left, front, back: top and bottom change the layer,
/// front and back the row, right and left the column.
pub open spec fn neighbour_3d(size: int, i: int, k: int) -> int {
    let z = i / (size * size);
    let y = (i % (size * size)) / size;
    let x = i % size;
    if k == 0 {
        cell_at_3d(size, wrap_dec(z, size), y, x)
    } else if k == 1 {
        cell_at_3d(size, z, y, wrap_inc(x, size))
    } else if k == 2 {
        cell_at_3d(size, wrap_inc(z, size), y, x)
    } else if k == 3 {
        cell_at_3d(size, z, y, wrap_dec(x, size))
    } else if k == 4 {
        cell_at_3d(size, z, wrap_dec(y, size), x)
    } else {
        cell_at_3d(size, z, wrap_inc(y, size), x)
    }
}

proof fn lemma_cell_at_3d(size: int, z: int, y: int, x: int)
    requires
        0 <= z < size,
        0 <= y < size,
        0 <= x < size,
    ensures
        0 <= cell_at_3d(size, z, y, x) < size * size * size,
{
    assert(0 <= y * size + x < size * size) by (nonlinear_arith)
        requires
            0 <= y < size,
            0 <= x < size,
    ;
    assert(0 <= z * (size * size) + y * size + x < size * size * size) by (nonlinear_arith)
        requires
            0 <= z < size,
            0 <= y * size + x < size * size,
    ;
}

proof fn lemma_coords_3d(size: int, i: int)
    requires
        0 < size,
        0 <= i < size * size * size,
    ensures
        0 <= i / (size * size) < size,
        0 <= (i % (size * size)) / size < size,
        0 <= i % size < size,
{
    let sq = size * size;
    assert(sq > 0) by (nonlinear_arith)
        requires
            0 < size,
            sq == size * size,
    ;
    lemma_fundamental_div_mod(i, sq);
    vstd::arithmetic::div_mod::lemma_mod_pos_bound(i, sq);
    vstd::arithmetic::div_mod::lemma_mod_pos_bound(i, size);
    let z = i / sq;
    assert(z * sq == sq * z) by (nonlinear_arith);
    assert(0 <= z < size) by (nonlinear_arith)
        requires
            i == sq * z + i % sq,
            0 <= i % sq < sq,
            0 <= i < sq * size,
            0 < sq,
    ;
    lemma_coords(size, i % sq);
}

proof fn lemma_cell_at_3d_coords(size: int, z: int, y: int, x: int)
    requires
        0 <= z < size,
        0 <= y < size,
        0 <= x < size,
    ensures
        cell_at_3d(size, z, y, x) / (size * size) == z,
        (cell_at_3d(size, z, y, x) % (size * size)) / size == y,
        cell_at_3d(size, z, y, x) % size == x,
{
    let sq = size * size;
    let c = cell_at_3d(size, z, y, x);
    lemma_cell_at(size, y, x);
    assert(sq > 0) by (nonlinear_arith)
        requires
            0 < size,
            sq == size * size,
    ;
    lemma_fundamental_div_mod_converse(c, sq, z, y * size + x);
    assert(c == (z * size + y) * size + x) by (nonlinear_arith)
        requires
            c == z * (size * size) + y * size + x,
    ;
    lemma_fundamental_div_mod_converse(c, size, z * size + y, x);
}

/// Going through slot `k` of a cube and back through the opposite slot
/// returns to the starting cell.
pub proof fn lemma_reverse_slot_3d(size: int, i: int, k: int)
    requires
        0 < size,
        0 <= i < size * size * size,
        0 <= k < 6,
    ensures
        neighbour_3d(size, neighbour_3d(size, i, k), if k < 4 {
            opposite(k)
        } else {
            9 - k
        }) == i,
{
    lemma_coords_3d(size, i);
    let z = i / (size * size);
    let y = (i % (size * size)) / size;
    let x = i % size;
    let sq = size * size;
    assert(sq > 0) by (nonlinear_arith)
        requires
            0 < size,
            sq == size * size,
    ;
    lemma_fundamental_div_mod(i, sq);
    lemma_fundamental_div_mod(i % sq, size);
    vstd::arithmetic::div_mod::lemma_mod_pos_bound(i, sq);
    lemma_coords(size, i % sq);
    let r = i % sq;
    assert(r == y * size + r % size);
    assert(i == (z * size + y) * size + r % size) by (nonlinear_arith)
        requires
            i == sq * z + r,
            r == y * size + r % size,
            sq == size * size,
    ;
    lemma_fundamental_div_mod_converse(i, size, z * size + y, r % size);
    assert(i == cell_at_3d(size, z, y, x)) by (nonlinear_arith)
        requires
            i == sq * z + i % sq,
            i % sq == (i % sq / size) * size + (i % sq) % size,
            y == i % sq / size,
            sq == size * size,
            (i % sq) % size == x,
    ;
    lemma_cell_at_3d_coords(size, z, y, x);
    lemma_wrap(z, size);
    lemma_wrap(y, size);
    lemma_wrap(x, size);
    let zd = wrap_dec(z, size);
    let zi = wrap_inc(z, size);
    let yd = wrap_dec(y, size);
    let yi = wrap_inc(y, size);
    let xd = wrap_dec(x, size);
    let xi = wrap_inc(x, size);
    lemma_cell_at_3d_coords(size, zd, y, x);
    lemma_cell_at_3d_coords(size, zi, y, x);
    lemma_cell_at_3d_coords(size, z, yd, x);
    lemma_cell_at_3d_coords(size, z, yi, x);
    lemma_cell_at_3d_coords(size, z, y, xd);
    lemma_cell_at_3d_coords(size, z, y, xi);
    lemma_wrap(zd, size);
    lemma_wrap(zi, size);
    lemma_wrap(yd, size);
    lemma_wrap(yi, size);
    lemma_wrap(xd, size);
    lemma_wrap(xi, size);
}

/// Every neighbour of a cell of a cube lies in the cube.
pub proof fn lemma_neighbour_3d_in_grid(size: int, i: int, k: int)
    requires
        0 < size,
        0 <= i < size * size * size,
        0 <= k < 6,
    ensures
        0 <= neighbour_3d(size, i, k) < size * size * size,
{
    lemma_coords_3d(size, i);
    let z = i / (size * size);
    let y = (i % (size * size)) / size;
    let x = i % size;
    lemma_wrap(z, size);
    lemma_wrap(y, size);
    lemma_wrap(x, size);
    lemma_cell_at_3d(size, wrap_dec(z, size), y, x);
    lemma_cell_at_3d(size, z, y, wrap_inc(x, size));
    lemma_cell_at_3d(size, wrap_inc(z, size), y, x);
    lemma_cell_at_3d(size, z, y, wrap_dec(x, size));
    lemma_cell_at_3d(size, z, wrap_dec(y, size), x);
    lemma_cell_at_3d(size, z, wrap_inc(y, size), x);
}

/// The six neighbours of cell `index` of a cube of side `size`, in slot order.
pub fn grid_neighbours_3d(size: u32, index: u32) -> (r: [u32; 6])
    requires
        valid_size_3d(size as int),
        index < size * size * size,
    ensures
        forall|k: int| 0 <= k < 6 ==> #[trigger] r@[k] == neighbour_3d(size as int, index as int, k),
{
    proof {
        assert(size * size <= size * size * size) by (nonlinear_arith)
            requires
                0 < size,
        ;
        assert(size <= size * size) by (nonlinear_arith)
            requires
                0 < size,
        ;
        assert(size <= 65535) by (nonlinear_arith)
            requires
                0 < size,
                size * size <= u32::MAX,
        ;
        lemma_coords_3d(size as int, index as int);
        lemma_neighbour_3d_in_grid(size as int, index as int, 0);
        lemma_neighbour_3d_in_grid(size as int, index as int, 1);
        lemma_neighbour_3d_in_grid(size as int, index as int, 2);
        lemma_neighbour_3d_in_grid(size as int, index as int, 3);
        lemma_neighbour_3d_in_grid(size as int, index as int, 4);
        lemma_neighbour_3d_in_grid(size as int, index as int, 5);
    }
    let sq = size * size;
    let z = index / sq;
    let y = index % sq / size;
    let x = index % size;
    let top = (z + size - 1) % size * sq + y * size + x;
    let bottom = (z + 1) % size * sq + y * size + x;
    let front = z * sq + (y + size - 1) % size * size + x;
    let back = z * sq + (y + 1) % size * size + x;
    let left = z * sq + y * size + (x + size - 1) % size;
    let right = z * sq + y * size + (x + 1) % size;
    [top, right, bottom, left, front, back]
}

/// The neighbour lists of all cells of a cube of side `size`, indexed by cell.
pub fn topology_3d(size: u32) -> (r: Vec<[u32; 6]>)
    requires
        valid_size_3d(size as int),
    ensures
        r.len() == size * size * size,
        forall|i: int, k: int|
            0 <= i < r.len() && 0 <= k < 6 ==> #[trigger] r@[i]@[k] == neighbour_3d(
                size as int,
                i,
                k,
            ),
{
    assert(size * size <= size * size * size) by (nonlinear_arith)
        requires
            0 < size,
    ;
    let n: u32 = size * size * size;
    let mut edges: Vec<[u32; 6]> = Vec::new();
    let mut i: u32 = 0;
    while i < n
        invariant
            valid_size_3d(size as int),
            n == size * size * size,
            i <= n,
            edges.len() == i,
            forall|j: int, k: int|
                0 <= j < i && 0 <= k < 6 ==> #[trigger] edges@[j]@[k] == neighbour_3d(
                    size as int,
                    j,
                    k,
                ),
        decreases n - i,
    {
        edges.push(grid_neighbours_3d(size, i));
        i = i + 1;
    }
    edges
}

} // verus!
