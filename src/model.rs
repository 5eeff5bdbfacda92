//! The mathematical model of a grid: a sequence of rows of cell states,
//! read on a torus, and the rule that takes one generation to the next.

use vstd::arithmetic::div_mod::lemma_fundamental_div_mod_converse;
use crate::board::BoardError;
use vstd::prelude::*;

verus! {

/// Number of rows of a grid.
pub open spec fn rows(g: Seq<Seq<bool>>) -> int {
    g.len() as int
}

/// Number of columns of a grid (the length of its first row).
pub open spec fn cols(g: Seq<Seq<bool>>) -> int {
    g[0].len() as int
}

/// A grid is non-empty in both dimensions and rectangular.
pub open spec fn is_grid(g: Seq<Seq<bool>>) -> bool {
    &&& g.len() >= 1
    &&& g[0].len() >= 1
    &&& is_rectangular(g)
}

/// Whether `(r, c)` names a cell of `g` without wrapping.
pub open spec fn in_bounds(g: Seq<Seq<bool>>, r: int, c: int) -> bool {
    0 <= r < rows(g) && 0 <= c < cols(g)
}

/// The state of the cell at `(r, c)` read on the torus: both coordinates
/// are taken modulo the grid's dimensions.
pub open spec fn cell(g: Seq<Seq<bool>>, r: int, c: int) -> bool {
    g[r % rows(g)][c % cols(g)]
}

/// 1 if the cell at `(r, c)` (on the torus) is alive, else 0.
pub open spec fn live(g: Seq<Seq<bool>>, r: int, c: int) -> nat {
    if cell(g, r, c) {
        1
    } else {
        0
    }
}

/// The number of live cells among the eight toroidal neighbours of `(r, c)`.
pub open spec fn live_neighbors(g: Seq<Seq<bool>>, r: int, c: int) -> nat {
    live(g, r - 1, c - 1) + live(g, r - 1, c) + live(g, r - 1, c + 1) + live(g, r, c - 1) + live(
        g,
        r,
        c + 1,
    ) + live(g, r + 1, c - 1) + live(g, r + 1, c) + live(g, r + 1, c + 1)
}

/// The state of a cell in the next generation, given its state now and its
/// number of live neighbours: a live cell survives with two or three live
/// neighbours, a dead cell is born with exactly three.
pub open spec fn next_state(alive: bool, n: nat) -> bool {
    if alive {
        n == 2 || n == 3
    } else {
        n == 3
    }
}

/// The next generation of `g`: every cell updated at once from `g`.
pub open spec fn next_gen(g: Seq<Seq<bool>>) -> Seq<Seq<bool>> {
    Seq::new(
        g.len(),
        |r: int| Seq::new(g[0].len(), |c: int| next_state(g[r][c], live_neighbors(g, r, c))),
    )
}

/// `g` after `n` generations.
pub open spec fn generations(g: Seq<Seq<bool>>, n: nat) -> Seq<Seq<bool>>
    decreases n,
{
    if n == 0 {
        g
    } else {
        next_gen(generations(g, (n - 1) as nat))
    }
}

/// An all-dead grid of the given dimensions.
pub open spec fn dead_grid(nrows: int, ncols: int) -> Seq<Seq<bool>> {
    Seq::new(nrows as nat, |r: int| Seq::new(ncols as nat, |c: int| false))
}

/// A coordinate one step outside `[0, n)` wraps to the opposite edge.
pub proof fn lemma_wrap(x: int, n: int)
    requires
        n > 0,
        -n <= x < 2 * n,
    ensures
        x % n == (if x < 0 {
            x + n
        } else if x >= n {
            x - n
        } else {
            x
        }),
{
    if x < 0 {
        lemma_fundamental_div_mod_converse(x, n, -1, x + n);
    } else if x >= n {
        lemma_fundamental_div_mod_converse(x, n, 1, x - n);
    } else {
        lemma_fundamental_div_mod_converse(x, n, 0, x);
    }
}


/// Every row of `g` has the length of the first.
pub open spec fn is_rectangular(g: Seq<Seq<bool>>) -> bool {
    forall|r: int| 0 <= r < g.len() ==> (#[trigger] g[r]).len() == g[0].len()
}

/// The rows of a pattern text: the text is split at each `'\n'` and each
/// other character stands for a live cell when it is `alive`, for a dead
/// one otherwise. The empty text is one empty row.
pub open spec fn pattern_rows(t: Seq<char>, alive: char) -> Seq<Seq<bool>>
    decreases t.len(),
{
    if t.len() == 0 {
        seq![Seq::empty()]
    } else {
        let prev = pattern_rows(t.drop_last(), alive);
        if t.last() == '\n' {
            prev.push(Seq::empty())
        } else {
            prev.update(prev.len() - 1, prev.last().push(t.last() == alive))
        }
    }
}

/// What a pattern text describes: its grid, or why it describes none.
/// Rows of different lengths are refused first; rows that are all empty
/// leave the grid without columns.
pub open spec fn pattern_grid(t: Seq<char>, alive: char) -> Result<Seq<Seq<bool>>, BoardError> {
    let g = pattern_rows(t, alive);
    if !is_rectangular(g) {
        Err(BoardError::RaggedRows)
    } else if g[0].len() == 0 {
        Err(BoardError::ZeroDimension)
    } else {
        Ok(g)
    }
}

/// The glyph that shows a cell: a filled square when alive, an outlined one
/// when dead.
pub open spec fn glyph(alive: bool) -> char {
    if alive {
        '\u{25fc}'
    } else {
        '\u{25fb}'
    }
}

/// A row as text: one glyph per cell, then a newline.
pub open spec fn render_row(row: Seq<bool>) -> Seq<char> {
    row.map_values(|b: bool| glyph(b)).push('\n')
}

/// A grid as text: its rows, top to bottom.
pub open spec fn render_grid(g: Seq<Seq<bool>>) -> Seq<char>
    decreases g.len(),
{
    if g.len() == 0 {
        Seq::empty()
    } else {
        render_grid(g.drop_last()) + render_row(g.last())
    }
}


/// Every one of the eight neighbours of a cell, wrapped round the torus,
/// lies inside the grid, so counting them never reads outside it; the count
/// is at most eight.
pub proof fn lemma_neighbors_in_range(g: Seq<Seq<bool>>, r: int, c: int)
    requires
        is_grid(g),
        in_bounds(g, r, c),
    ensures
        forall|a: int, b: int|
            -1 <= a <= 1 && -1 <= b <= 1 ==> #[trigger] in_bounds(g, (r + a) % rows(g), (c + b) % cols(g)),
        live_neighbors(g, r, c) <= 8,
{
    assert forall|a: int, b: int| -1 <= a <= 1 && -1 <= b <= 1 implies #[trigger] in_bounds(
        g,
        (r + a) % rows(g),
        (c + b) % cols(g),
    ) by {
        lemma_wrap(r + a, rows(g));
        lemma_wrap(c + b, cols(g));
    }
}

/// A dead cell with exactly three live neighbours is alive in the next
/// generation, which keeps the grid's dimensions and computes every other
/// cell by the same rule.
pub proof fn lemma_birth(g: Seq<Seq<bool>>, r: int, c: int)
    requires
        is_grid(g),
        in_bounds(g, r, c),
        !g[r][c],
        live_neighbors(g, r, c) == 3,
    ensures
        next_gen(g)[r][c],
        is_grid(next_gen(g)),
        rows(next_gen(g)) == rows(g),
        cols(next_gen(g)) == cols(g),
        forall|a: int, b: int|
            in_bounds(g, a, b) ==> #[trigger] next_gen(g)[a][b] == next_state(g[a][b], live_neighbors(g, a, b)),
{
}

/// On a grid of one cell, all eight neighbours of the cell are the cell
/// itself: it counts eight live neighbours when alive and none when dead,
/// and so is dead in the next generation either way.
pub proof fn lemma_single_cell(g: Seq<Seq<bool>>)
    requires
        is_grid(g),
        rows(g) == 1,
        cols(g) == 1,
    ensures
        live_neighbors(g, 0, 0) == (if g[0][0] {
            8nat
        } else {
            0nat
        }),
        !next_gen(g)[0][0],
{
    lemma_wrap(-1, 1);
    lemma_wrap(0, 1);
    lemma_wrap(1, 1);
}

} // verus!
