//! The grid of cells: construction, cell access, neighbour counting on the
//! torus and the advance to the next generation.

use crate::model::{
    cols, dead_grid, glyph, in_bounds, is_grid, lemma_wrap, live_neighbors, next_gen,
    pattern_grid, pattern_rows, render_grid, rows,
};
use vstd::arithmetic::div_mod::lemma_small_mod;
use vstd::prelude::*;
use vstd::string::StringExecFns;

verus! {

/// Why a grid could not be built.
#[derive(Debug, Clone, Copy, PartialEq, Eq, Structural)]
pub enum BoardError {
    /// A grid needs at least one row and one column.
    ZeroDimension,
    /// The rows of a pattern do not all have the same length.
    RaggedRows,
}

/// A rectangular grid of live and dead cells whose edges wrap around.
pub struct Board {
    board: Vec<Vec<bool>>,
}

/// The rows of a vector of vectors, as sequences.
pub open spec fn views(v: Seq<Vec<bool>>) -> Seq<Seq<bool>> {
    v.map_values(|row: Vec<bool>| row@)
}

/// The outcome of building a board, with the board replaced by its cells.
pub open spec fn outcome(r: Result<Board, BoardError>) -> Result<Seq<Seq<bool>>, BoardError> {
    match r {
        Ok(b) => Ok(b@),
        Err(e) => Err(e),
    }
}

impl View for Board {
    type V = Seq<Seq<bool>>;

    closed spec fn view(&self) -> Seq<Seq<bool>> {
        views(self.board@)
    }
}

/// What `str::trim` leaves of a text.
pub uninterp spec fn trimmed(s: Seq<char>) -> Seq<char>;

/// Relies on `str::trim`: it returns the text without its leading and
/// trailing whitespace, which depends on the characters of the text alone.
#[verifier::external_body]
fn trim(s: &str) -> (r: &str)
    ensures
        r@ == trimmed(s@),
{
    s.trim()
}

/// The index one step before `i` on a cycle of length `n`.
fn wrap_prev(i: usize, n: usize) -> (r: usize)
    requires
        i < n,
    ensures
        r as int == (i - 1) % (n as int),
{
    proof {
        lemma_wrap(i - 1, n as int);
    }
    if i == 0 {
        n - 1
    } else {
        i - 1
    }
}

/// The index one step after `i` on a cycle of length `n`.
fn wrap_next(i: usize, n: usize) -> (r: usize)
    requires
        i < n,
    ensures
        r as int == (i + 1) % (n as int),
{
    proof {
        lemma_wrap(i + 1, n as int);
    }
    if i + 1 == n {
        0
    } else {
        i + 1
    }
}

impl Board {
    /// The view holds one row per inner vector, each row its vector's view.
    proof fn lemma_view_row(&self, row: int)
        requires
            self.wf(),
            0 <= row < rows(self@),
        ensures
            self.board@.len() == self@.len(),
            self.board@[row]@ == self@[row],
            self@[row].len() == cols(self@),
    {
    }

    /// The grid is non-empty and rectangular.
    pub open spec fn wf(&self) -> bool {
        is_grid(self@)
    }

    /// An all-dead grid of `nrows` rows and `ncols` columns; fails when
    /// either is zero.
    pub fn new(nrows: usize, ncols: usize) -> (r: Result<Board, BoardError>)
        ensures
            nrows == 0 || ncols == 0 ==> r == Err::<Board, BoardError>(BoardError::ZeroDimension),
            nrows > 0 && ncols > 0 ==> r is Ok,
            r matches Ok(b) ==> b.wf() && b@ == dead_grid(nrows as int, ncols as int),
    {
        if nrows == 0 || ncols == 0 {
            return Err(BoardError::ZeroDimension);
        }
        let mut board: Vec<Vec<bool>> = Vec::new();
        for i in 0..nrows
            invariant
                board@.len() == i,
                forall|k: int| 0 <= k < i ==> (#[trigger] board@[k])@ == Seq::new(ncols as nat, |c: int| false),
        {
            let mut row: Vec<bool> = Vec::new();
            for j in 0..ncols
                invariant
                    row@ == Seq::new(j as nat, |c: int| false),
            {
                row.push(false);
                assert(row@ =~= Seq::new((j + 1) as nat, |c: int| false));
            }
            board.push(row);
        }
        let b = Board { board };
        assert(b@ =~= dead_grid(nrows as int, ncols as int));
        Ok(b)
    }

    /// The number of rows.
    pub fn n_rows(&self) -> (r: usize)
        requires
            self.wf(),
        ensures
            r as int == rows(self@),
            r >= 1,
    {
        self.board.len()
    }

    /// The number of columns.
    pub fn n_cols(&self) -> (r: usize)
        requires
            self.wf(),
        ensures
            r as int == cols(self@),
            r >= 1,
    {
        proof {
            self.lemma_view_row(0);
        }
        self.board[0].len()
    }

    /// Whether the cell at `(row, col)` is alive.
    pub fn is_alive(&self, row: usize, col: usize) -> (r: bool)
        requires
            self.wf(),
            in_bounds(self@, row as int, col as int),
        ensures
            r == self@[row as int][col as int],
    {
        proof {
            self.lemma_view_row(row as int);
        }
        self.board[row][col]
    }

    /// Sets the cell at `(row, col)` to `value`, leaving every other cell.
    fn set_cell(&mut self, row: usize, col: usize, value: bool)
        requires
            old(self).wf(),
            in_bounds(old(self)@, row as int, col as int),
        ensures
            final(self).wf(),
            final(self)@ == old(self)@.update(row as int, old(self)@[row as int].update(col as int, value)),
    {
        let ghost g = self@;
        proof {
            self.lemma_view_row(row as int);
        }
        self.board[row][col] = value;
        assert(self@ =~= g.update(row as int, g[row as int].update(col as int, value)));
    }

    /// Makes the cell at `(row, col)` alive.
    pub fn turn_on(&mut self, row: usize, col: usize)
        requires
            old(self).wf(),
            in_bounds(old(self)@, row as int, col as int),
        ensures
            final(self).wf(),
            final(self)@ == old(self)@.update(row as int, old(self)@[row as int].update(col as int, true)),
    {
        self.set_cell(row, col, true);
    }

    /// Makes the cell at `(row, col)` dead.
    pub fn turn_off(&mut self, row: usize, col: usize)
        requires
            old(self).wf(),
            in_bounds(old(self)@, row as int, col as int),
        ensures
            final(self).wf(),
            final(self)@ == old(self)@.update(row as int, old(self)@[row as int].update(col as int, false)),
    {
        self.set_cell(row, col, false);
    }

    /// The number of live cells among the eight neighbours of `(row, col)`,
    /// wrapping around the edges.
    pub fn n_neighbors(&self, row: usize, col: usize) -> (n: usize)
        requires
            self.wf(),
            in_bounds(self@, row as int, col as int),
        ensures
            n as nat == live_neighbors(self@, row as int, col as int),
            n <= 8,
    {
        let nr = self.n_rows();
        let nc = self.n_cols();
        let up = wrap_prev(row, nr);
        let down = wrap_next(row, nr);
        let left = wrap_prev(col, nc);
        let right = wrap_next(col, nc);
        proof {
            lemma_small_mod(row as nat, nr as nat);
            lemma_small_mod(col as nat, nc as nat);
        }
        let n = self.live_at(up, left) + self.live_at(up, col) + self.live_at(up, right)
            + self.live_at(row, left) + self.live_at(row, right) + self.live_at(down, left)
            + self.live_at(down, col) + self.live_at(down, right);
        n
    }

    /// 1 if the cell at `(row, col)` is alive, else 0.
    fn live_at(&self, row: usize, col: usize) -> (r: usize)
        requires
            self.wf(),
            in_bounds(self@, row as int, col as int),
        ensures
            r == (if self@[row as int][col as int] {
                1usize
            } else {
                0usize
            }),
    {
        proof {
            self.lemma_view_row(row as int);
        }
        if self.board[row][col] {
            1
        } else {
            0
        }
    }

    /// Advances the grid by one generation. Every cell's next state is
    /// computed from the current generation alone and the grid is replaced
    /// as a whole: a live cell survives with two or three live neighbours,
    /// a dead cell is born with exactly three, every other cell is dead.
    pub fn step(&mut self)
        requires
            old(self).wf(),
        ensures
            final(self).wf(),
            final(self)@ == next_gen(old(self)@),
    {
        let nr = self.n_rows();
        let nc = self.n_cols();
        let ghost g = self@;
        let mut new_board: Vec<Vec<bool>> = Vec::new();
        for row in 0..nr
            invariant
                self@ == g,
                self.wf(),
                nr as int == rows(g),
                nc as int == cols(g),
                new_board@.len() == row,
                forall|k: int|
                    0 <= k < row ==> (#[trigger] new_board@[k])@ == next_gen(g)[k],
        {
            let mut new_row: Vec<bool> = Vec::new();
            for col in 0..nc
                invariant
                    self@ == g,
                    self.wf(),
                    0 <= row < nr,
                    nr as int == rows(g),
                    nc as int == cols(g),
                    new_row@ == next_gen(g)[row as int].take(col as int),
            {
                let n = self.n_neighbors(row, col);
                let alive = self.is_alive(row, col);
                let next = if alive {
                    n == 2 || n == 3
                } else {
                    n == 3
                };
                new_row.push(next);
                assert(new_row@ =~= next_gen(g)[row as int].take(col + 1));
            }
            assert(new_row@ =~= next_gen(g)[row as int]);
            new_board.push(new_row);
        }
        self.board = new_board;
        assert(self@ =~= next_gen(g));
    }

    /// The grid that a pattern text describes: one row per line (lines are
    /// separated by `'\n'`), a live cell for each `alive` character and a
    /// dead one for any other. Fails with `RaggedRows` when the lines differ
    /// in length and with `ZeroDimension` when they are all empty.
    pub fn from_pattern(text: &str, alive: char) -> (r: Result<Board, BoardError>)
        ensures
            outcome(r) == pattern_grid(text@, alive),
            r matches Ok(b) ==> b.wf(),
    {
        let mut done: Vec<Vec<bool>> = Vec::new();
        let mut cur: Vec<bool> = Vec::new();
        let ghost t = text@;
        for ch in it: text.chars()
            invariant
                t == text@,
                it.seq() == t,
                views(done@).push(cur@) == pattern_rows(t.take(it.index() as int), alive),
        {
            let ghost i = it.index() as int;
            proof {
                assert(t.take(i + 1).drop_last() =~= t.take(i));
            }
            if ch == '\n' {
                done.push(cur);
                cur = Vec::new();
            } else {
                cur.push(ch == alive);
            }
            proof {
                assert(views(done@).push(cur@) =~= pattern_rows(t.take(i + 1), alive));
            }
        }
        done.push(cur);
        proof {
            assert(t.take(t.len() as int) =~= t);
            assert(views(done@) == pattern_rows(t, alive));
        }
        let width = done[0].len();
        let mut k: usize = 0;
        while k < done.len()
            invariant
                0 <= k <= done@.len(),
                done@.len() >= 1,
                width == done@[0]@.len(),
                t == text@,
                views(done@) == pattern_rows(t, alive),
                forall|j: int| 0 <= j < k ==> (#[trigger] done@[j])@.len() == width,
            decreases done@.len() - k,
        {
            if done[k].len() != width {
                proof {
                    let g = views(done@);
                    assert(g[k as int].len() != g[0].len());
                }
                return Err(BoardError::RaggedRows);
            }
            k = k + 1;
        }
        if width == 0 {
            return Err(BoardError::ZeroDimension);
        }
        let b = Board { board: done };
        Ok(b)
    }

    /// The grid that a pattern file's contents describe: the text is
    /// trimmed of surrounding whitespace and then read as by
    /// [`Board::from_pattern`].
    pub fn from_text(text: &str, alive: char) -> (r: Result<Board, BoardError>)
        ensures
            outcome(r) == pattern_grid(trimmed(text@), alive),
            r matches Ok(b) ==> b.wf(),
    {
        let body = trim(text);
        Board::from_pattern(body, alive)
    }

    /// The grid as text, one line per row and one glyph per cell.
    pub fn render(&self) -> (r: String)
        requires
            self.wf(),
        ensures
            r@ == render_grid(self@),
    {
        let nr = self.n_rows();
        let nc = self.n_cols();
        let ghost g = self@;
        let mut out = String::new();
        for row in 0..nr
            invariant
                self@ == g,
                self.wf(),
                nr as int == rows(g),
                nc as int == cols(g),
                out@ == render_grid(g.take(row as int)),
        {
            let ghost before = out@;
            for col in 0..nc
                invariant
                    self@ == g,
                    self.wf(),
                    0 <= row < nr,
                    nr as int == rows(g),
                    nc as int == cols(g),
                    out@ == before + g[row as int].take(col as int).map_values(|b: bool| glyph(b)),
            {
                if self.is_alive(row, col) {
                    proof {
                        reveal_strlit("\u{25fc}");
                    }
                    out.append("\u{25fc}");
                } else {
                    proof {
                        reveal_strlit("\u{25fb}");
                    }
                    out.append("\u{25fb}");
                }
                assert(g[row as int].take(col + 1).map_values(|b: bool| glyph(b))
                    =~= g[row as int].take(col as int).map_values(|b: bool| glyph(b)).push(glyph(g[row as int][col as int])));
            }
            proof {
                reveal_strlit("\n");
            }
            out.append("\n");
            proof {
                assert(g[row as int].take(nc as int) =~= g[row as int]);
                assert(g.take(row + 1).drop_last() =~= g.take(row as int));
            }
        }
        proof {
            assert(g.take(nr as int) =~= g);
        }
        out
    }
}

} // verus!
