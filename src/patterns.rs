//! Shapes placed anywhere on the torus, the fact that moving a grid round
//! the torus commutes with the generation rule, and what follows for two
//! classic shapes: the block, which never changes, and the blinker, which
//! turns between a horizontal and a vertical line.

use crate::model::{cell, cols, is_grid, lemma_wrap, live_neighbors, next_gen, generations, rows};
use vstd::arithmetic::div_mod::lemma_add_mod_noop_right;
use vstd::prelude::*;

verus! {

/// A grid of `nrows` by `ncols` whose cell `(r, c)` is alive when `shape`
/// holds of its offset from `(r0, c0)`, taken round the torus.
pub open spec fn placed(
    nrows: int,
    ncols: int,
    r0: int,
    c0: int,
    shape: spec_fn(int, int) -> bool,
) -> Seq<Seq<bool>> {
    Seq::new(
        nrows as nat,
        |r: int| Seq::new(ncols as nat, |c: int| shape((r - r0) % nrows, (c - c0) % ncols)),
    )
}

/// A 2 by 2 square, by offsets from its top-left corner.
pub open spec fn square() -> spec_fn(int, int) -> bool {
    |a: int, b: int| a < 2 && b < 2
}

/// Three cells in a row, by offsets from the leftmost.
pub open spec fn row_of_three() -> spec_fn(int, int) -> bool {
    |a: int, b: int| a == 0 && b < 3
}

/// Three cells in a column, by offsets from the topmost.
pub open spec fn column_of_three() -> spec_fn(int, int) -> bool {
    |a: int, b: int| a < 3 && b == 0
}

/// The 2 by 2 square of live cells with its top-left corner at `(r0, c0)`.
pub open spec fn block(nrows: int, ncols: int, r0: int, c0: int) -> Seq<Seq<bool>> {
    placed(nrows, ncols, r0, c0, square())
}

/// Three live cells in a row, the leftmost at `(r0, c0)`.
pub open spec fn horizontal_blinker(nrows: int, ncols: int, r0: int, c0: int) -> Seq<Seq<bool>> {
    placed(nrows, ncols, r0, c0, row_of_three())
}

/// Three live cells in a column, the topmost at `(r0, c0)`.
pub open spec fn vertical_blinker(nrows: int, ncols: int, r0: int, c0: int) -> Seq<Seq<bool>> {
    placed(nrows, ncols, r0, c0, column_of_three())
}

/// `g` moved round the torus: the cell `(r, c)` of the result is the cell
/// `(r + dr, c + dc)` of `g`.
pub open spec fn shift(g: Seq<Seq<bool>>, dr: int, dc: int) -> Seq<Seq<bool>> {
    Seq::new(g.len(), |r: int| Seq::new(g[0].len(), |c: int| cell(g, r + dr, c + dc)))
}

/// Reducing one summand modulo `m` first does not change the sum modulo `m`.
proof fn lemma_mod_shift(x: int, y: int, m: int)
    requires
        m > 0,
    ensures
        ((x % m) + y) % m == (x + y) % m,
{
    lemma_add_mod_noop_right(y, x, m);
}

/// A coordinate inside `[0, n)` and its two neighbours, taken round a cycle.
proof fn lemma_ring(x: int, n: int)
    requires
        n > 0,
        0 <= x < n,
    ensures
        x % n == x,
        (x - 1) % n == (if x == 0 {
            n - 1
        } else {
            x - 1
        }),
        (x + 1) % n == (if x == n - 1 {
            0
        } else {
            x + 1
        }),
{
    lemma_wrap(x, n);
    lemma_wrap(x - 1, n);
    lemma_wrap(x + 1, n);
}

/// Reading a shifted grid is reading the grid at the shifted place.
proof fn lemma_cell_shift(g: Seq<Seq<bool>>, dr: int, dc: int, x: int, y: int)
    requires
        is_grid(g),
    ensures
        cell(shift(g, dr, dc), x, y) == cell(g, x + dr, y + dc),
{
    lemma_mod_shift(x, dr, rows(g));
    lemma_mod_shift(y, dc, cols(g));
}

/// The neighbourhood of a cell depends on its coordinates modulo the
/// grid's dimensions only.
proof fn lemma_live_neighbors_mod(g: Seq<Seq<bool>>, x: int, y: int)
    requires
        is_grid(g),
    ensures
        live_neighbors(g, x % rows(g), y % cols(g)) == live_neighbors(g, x, y),
{
    let (nr, nc) = (rows(g), cols(g));
    lemma_mod_shift(x, -1, nr);
    lemma_mod_shift(x, 0, nr);
    lemma_mod_shift(x, 1, nr);
    lemma_mod_shift(y, -1, nc);
    lemma_mod_shift(y, 0, nc);
    lemma_mod_shift(y, 1, nc);
}

/// One cell of the grid that is shifted and then advanced, against the grid
/// that is advanced and then shifted.
proof fn lemma_shift_next_gen_cell(g: Seq<Seq<bool>>, dr: int, dc: int, r: int, c: int)
    requires
        is_grid(g),
        0 <= r < rows(g),
        0 <= c < cols(g),
    ensures
        next_gen(shift(g, dr, dc))[r][c] == shift(next_gen(g), dr, dc)[r][c],
{
    let s = shift(g, dr, dc);
    let n = next_gen(g);
    assert(is_grid(s));
    lemma_cell_shift(g, dr, dc, r - 1, c - 1);
    lemma_cell_shift(g, dr, dc, r - 1, c);
    lemma_cell_shift(g, dr, dc, r - 1, c + 1);
    lemma_cell_shift(g, dr, dc, r, c - 1);
    lemma_cell_shift(g, dr, dc, r, c + 1);
    lemma_cell_shift(g, dr, dc, r + 1, c - 1);
    lemma_cell_shift(g, dr, dc, r + 1, c);
    lemma_cell_shift(g, dr, dc, r + 1, c + 1);
    assert(live_neighbors(s, r, c) == live_neighbors(g, r + dr, c + dc));
    lemma_live_neighbors_mod(g, r + dr, c + dc);
    lemma_small_mod_in(r, rows(g));
    lemma_small_mod_in(c, cols(g));
    let x = (r + dr) % rows(g);
    let y = (c + dc) % cols(g);
    assert(0 <= x < rows(g) && 0 <= y < cols(g));
    assert(s[r][c] == g[x][y]);
    assert(shift(n, dr, dc)[r][c] == n[x][y]);
}

/// Moving a grid round the torus and advancing it a generation give the
/// same grid in either order: the rule treats every place alike.
pub proof fn lemma_shift_next_gen(g: Seq<Seq<bool>>, dr: int, dc: int)
    requires
        is_grid(g),
    ensures
        is_grid(shift(g, dr, dc)),
        next_gen(shift(g, dr, dc)) == shift(next_gen(g), dr, dc),
{
    let s = shift(g, dr, dc);
    let n = next_gen(g);
    assert(is_grid(s));
    assert(n[0].len() == cols(g));
    assert forall|r: int, c: int| 0 <= r < rows(g) && 0 <= c < cols(g) implies #[trigger] next_gen(
        s,
    )[r][c] == shift(n, dr, dc)[r][c] by {
        lemma_shift_next_gen_cell(g, dr, dc, r, c);
    }
    assert(next_gen(s) =~~= shift(n, dr, dc));
}

/// A coordinate inside `[0, n)` is its own remainder.
proof fn lemma_small_mod_in(x: int, n: int)
    requires
        n > 0,
        0 <= x < n,
    ensures
        x % n == x,
{
    lemma_wrap(x, n);
}

/// Moving a placed shape round the torus places it elsewhere.
pub proof fn lemma_shift_placed(
    nrows: int,
    ncols: int,
    r0: int,
    c0: int,
    shape: spec_fn(int, int) -> bool,
    dr: int,
    dc: int,
)
    requires
        nrows >= 1,
        ncols >= 1,
    ensures
        shift(placed(nrows, ncols, r0, c0, shape), dr, dc) == placed(
            nrows,
            ncols,
            r0 - dr,
            c0 - dc,
            shape,
        ),
{
    let p = placed(nrows, ncols, r0, c0, shape);
    let q = placed(nrows, ncols, r0 - dr, c0 - dc, shape);
    assert forall|r: int, c: int| 0 <= r < nrows && 0 <= c < ncols implies #[trigger] shift(
        p,
        dr,
        dc,
    )[r][c] == q[r][c] by {
        lemma_mod_shift(r + dr, -r0, nrows);
        lemma_mod_shift(c + dc, -c0, ncols);
        let x = (r + dr) % nrows;
        let y = (c + dc) % ncols;
        assert(0 <= x < nrows && 0 <= y < ncols);
    }
    assert(shift(p, dr, dc) =~~= q);
}


/// The neighbours of `(r, c)` in a shape placed at the origin, read at
/// their places round the torus.
proof fn lemma_origin_neighbors(nrows: int, ncols: int, shape: spec_fn(int, int) -> bool, r: int, c: int)
    requires
        nrows >= 1,
        ncols >= 1,
        0 <= r < nrows,
        0 <= c < ncols,
    ensures
        ({
            let p = placed(nrows, ncols, 0, 0, shape);
            &&& is_grid(p)
            &&& p[r][c] == shape(r, c)
            &&& cell(p, r - 1, c - 1) == shape((r - 1) % nrows, (c - 1) % ncols)
            &&& cell(p, r - 1, c) == shape((r - 1) % nrows, c)
            &&& cell(p, r - 1, c + 1) == shape((r - 1) % nrows, (c + 1) % ncols)
            &&& cell(p, r, c - 1) == shape(r, (c - 1) % ncols)
            &&& cell(p, r, c + 1) == shape(r, (c + 1) % ncols)
            &&& cell(p, r + 1, c - 1) == shape((r + 1) % nrows, (c - 1) % ncols)
            &&& cell(p, r + 1, c) == shape((r + 1) % nrows, c)
            &&& cell(p, r + 1, c + 1) == shape((r + 1) % nrows, (c + 1) % ncols)
        }),
{
    let p = placed(nrows, ncols, 0, 0, shape);
    assert(is_grid(p));
    lemma_ring(r, nrows);
    lemma_ring(c, ncols);
    lemma_ring((r - 1) % nrows, nrows);
    lemma_ring((r + 1) % nrows, nrows);
    lemma_ring((c - 1) % ncols, ncols);
    lemma_ring((c + 1) % ncols, ncols);
}

/// At the origin, the block is unchanged by one generation.
proof fn lemma_block_origin(nrows: int, ncols: int)
    requires
        nrows >= 3,
        ncols >= 3,
    ensures
        next_gen(block(nrows, ncols, 0, 0)) == block(nrows, ncols, 0, 0),
{
    let p = block(nrows, ncols, 0, 0);
    assert forall|r: int, c: int| 0 <= r < nrows && 0 <= c < ncols implies #[trigger] next_gen(p)[r][c]
        == p[r][c] by {
        lemma_origin_neighbors(nrows, ncols, square(), r, c);
        lemma_ring(r, nrows);
        lemma_ring(c, ncols);
    }
    assert(next_gen(p) =~~= p);
}


/// At the origin, a horizontal blinker turns into a vertical one through
/// its middle cell.
proof fn lemma_horizontal_origin(nrows: int, ncols: int)
    requires
        nrows >= 4,
        ncols >= 4,
    ensures
        next_gen(horizontal_blinker(nrows, ncols, 0, 0)) == vertical_blinker(nrows, ncols, -1, 1),
{
    let p = horizontal_blinker(nrows, ncols, 0, 0);
    let q = vertical_blinker(nrows, ncols, -1, 1);
    assert forall|r: int, c: int| 0 <= r < nrows && 0 <= c < ncols implies #[trigger] next_gen(p)[r][c]
        == q[r][c] by {
        lemma_origin_neighbors(nrows, ncols, row_of_three(), r, c);
        lemma_ring(r, nrows);
        lemma_ring(c, ncols);
    }
    assert(next_gen(p) =~~= q);
}

/// At the origin, a vertical blinker turns into a horizontal one through
/// its middle cell.
proof fn lemma_vertical_origin(nrows: int, ncols: int)
    requires
        nrows >= 4,
        ncols >= 4,
    ensures
        next_gen(vertical_blinker(nrows, ncols, 0, 0)) == horizontal_blinker(nrows, ncols, 1, -1),
{
    let p = vertical_blinker(nrows, ncols, 0, 0);
    let q = horizontal_blinker(nrows, ncols, 1, -1);
    assert forall|r: int, c: int| 0 <= r < nrows && 0 <= c < ncols implies #[trigger] next_gen(p)[r][c]
        == q[r][c] by {
        lemma_origin_neighbors(nrows, ncols, column_of_three(), r, c);
        lemma_ring(r, nrows);
        lemma_ring(c, ncols);
    }
    assert(next_gen(p) =~~= q);
}

/// A block on a torus of at least three rows and three columns is
/// unchanged by a generation, wherever it stands.
pub proof fn lemma_block_still(nrows: int, ncols: int, r0: int, c0: int)
    requires
        nrows >= 3,
        ncols >= 3,
    ensures
        is_grid(block(nrows, ncols, r0, c0)),
        next_gen(block(nrows, ncols, r0, c0)) == block(nrows, ncols, r0, c0),
{
    let o = block(nrows, ncols, 0, 0);
    let b = block(nrows, ncols, r0, c0);
    assert(is_grid(o)) by {
        lemma_origin_neighbors(nrows, ncols, square(), 0, 0);
    }
    assert(next_gen(o) == o) by {
        lemma_block_origin(nrows, ncols);
    }
    assert(shift(o, -r0, -c0) == b) by {
        lemma_shift_placed(nrows, ncols, 0, 0, square(), -r0, -c0);
    }
    assert(is_grid(shift(o, -r0, -c0)) && next_gen(shift(o, -r0, -c0)) == shift(next_gen(o), -r0, -c0)) by {
        lemma_shift_next_gen(o, -r0, -c0);
    }
}

/// A block on a torus of at least three rows and three columns is
/// unchanged by any number of generations.
pub proof fn lemma_block_stable(nrows: int, ncols: int, r0: int, c0: int, n: nat)
    requires
        nrows >= 3,
        ncols >= 3,
    ensures
        generations(block(nrows, ncols, r0, c0), n) == block(nrows, ncols, r0, c0),
    decreases n,
{
    if n > 0 {
        lemma_block_stable(nrows, ncols, r0, c0, (n - 1) as nat);
        lemma_block_still(nrows, ncols, r0, c0);
    }
}

/// On a torus of at least four rows and four columns, a horizontal blinker
/// becomes, after one generation, the vertical blinker through its middle
/// cell.
pub proof fn lemma_horizontal_to_vertical(nrows: int, ncols: int, r0: int, c0: int)
    requires
        nrows >= 4,
        ncols >= 4,
    ensures
        is_grid(horizontal_blinker(nrows, ncols, r0, c0)),
        next_gen(horizontal_blinker(nrows, ncols, r0, c0)) == vertical_blinker(
            nrows,
            ncols,
            r0 - 1,
            c0 + 1,
        ),
{
    let o = horizontal_blinker(nrows, ncols, 0, 0);
    let h = horizontal_blinker(nrows, ncols, r0, c0);
    let v = vertical_blinker(nrows, ncols, -1, 1);
    assert(is_grid(o)) by {
        lemma_origin_neighbors(nrows, ncols, row_of_three(), 0, 0);
    }
    assert(next_gen(o) == v) by {
        lemma_horizontal_origin(nrows, ncols);
    }
    assert(shift(o, -r0, -c0) == h) by {
        lemma_shift_placed(nrows, ncols, 0, 0, row_of_three(), -r0, -c0);
    }
    assert(shift(v, -r0, -c0) == vertical_blinker(nrows, ncols, r0 - 1, c0 + 1)) by {
        lemma_shift_placed(nrows, ncols, -1, 1, column_of_three(), -r0, -c0);
    }
    assert(is_grid(shift(o, -r0, -c0)) && next_gen(shift(o, -r0, -c0)) == shift(next_gen(o), -r0, -c0)) by {
        lemma_shift_next_gen(o, -r0, -c0);
    }
}

/// On a torus of at least four rows and four columns, a vertical blinker
/// becomes, after one generation, the horizontal blinker through its middle
/// cell.
pub proof fn lemma_vertical_to_horizontal(nrows: int, ncols: int, r0: int, c0: int)
    requires
        nrows >= 4,
        ncols >= 4,
    ensures
        is_grid(vertical_blinker(nrows, ncols, r0, c0)),
        next_gen(vertical_blinker(nrows, ncols, r0, c0)) == horizontal_blinker(
            nrows,
            ncols,
            r0 + 1,
            c0 - 1,
        ),
{
    let o = vertical_blinker(nrows, ncols, 0, 0);
    let v = vertical_blinker(nrows, ncols, r0, c0);
    let h = horizontal_blinker(nrows, ncols, 1, -1);
    assert(is_grid(o)) by {
        lemma_origin_neighbors(nrows, ncols, column_of_three(), 0, 0);
    }
    assert(next_gen(o) == h) by {
        lemma_vertical_origin(nrows, ncols);
    }
    assert(shift(o, -r0, -c0) == v) by {
        lemma_shift_placed(nrows, ncols, 0, 0, column_of_three(), -r0, -c0);
    }
    assert(shift(h, -r0, -c0) == horizontal_blinker(nrows, ncols, r0 + 1, c0 - 1)) by {
        lemma_shift_placed(nrows, ncols, 1, -1, row_of_three(), -r0, -c0);
    }
    assert(is_grid(shift(o, -r0, -c0)) && next_gen(shift(o, -r0, -c0)) == shift(next_gen(o), -r0, -c0)) by {
        lemma_shift_next_gen(o, -r0, -c0);
    }
}


/// On a torus of at least four rows and four columns, a horizontal blinker
/// is vertical after every odd number of generations and itself again after
/// every even number.
pub proof fn lemma_blinker_period(nrows: int, ncols: int, r0: int, c0: int, n: nat)
    requires
        nrows >= 4,
        ncols >= 4,
    ensures
        generations(horizontal_blinker(nrows, ncols, r0, c0), n) == (if n % 2 == 0 {
            horizontal_blinker(nrows, ncols, r0, c0)
        } else {
            vertical_blinker(nrows, ncols, r0 - 1, c0 + 1)
        }),
    decreases n,
{
    if n > 0 {
        lemma_blinker_period(nrows, ncols, r0, c0, (n - 1) as nat);
        lemma_horizontal_to_vertical(nrows, ncols, r0, c0);
        lemma_vertical_to_horizontal(nrows, ncols, r0 - 1, c0 + 1);
        assert(horizontal_blinker(nrows, ncols, r0 - 1 + 1, c0 + 1 - 1) == horizontal_blinker(
            nrows,
            ncols,
            r0,
            c0,
        ));
    }
}

/// On a torus of at least four rows and four columns, the two phases of a
/// blinker differ, so it first comes back after two generations.
pub proof fn lemma_blinker_phases_differ(nrows: int, ncols: int, r0: int, c0: int)
    requires
        nrows >= 4,
        ncols >= 4,
    ensures
        horizontal_blinker(nrows, ncols, r0, c0) != vertical_blinker(nrows, ncols, r0 - 1, c0 + 1),
        generations(horizontal_blinker(nrows, ncols, r0, c0), 1) != horizontal_blinker(nrows, ncols, r0, c0),
        generations(horizontal_blinker(nrows, ncols, r0, c0), 2) == horizontal_blinker(nrows, ncols, r0, c0),
{
    let h = horizontal_blinker(nrows, ncols, r0, c0);
    let v = vertical_blinker(nrows, ncols, r0 - 1, c0 + 1);
    let x = (r0 - 1) % nrows;
    let y = (c0 + 1) % ncols;
    lemma_wrap(0, nrows);
    lemma_wrap(0, ncols);
    lemma_wrap(-1, nrows);
    lemma_mod_shift(r0 - 1, -r0, nrows);
    lemma_mod_shift(r0 - 1, -(r0 - 1), nrows);
    lemma_mod_shift(c0 + 1, -(c0 + 1), ncols);
    assert(0 <= x < nrows && 0 <= y < ncols);
    assert(v[x][y]);
    assert(!h[x][y]);
    lemma_blinker_period(nrows, ncols, r0, c0, 1);
    lemma_blinker_period(nrows, ncols, r0, c0, 2);
}

} // verus!
