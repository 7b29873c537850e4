//! The mathematical model: a board of cells and the rule that takes one
//! generation to the next.
//!
//! Everything here is ghost code. The executable types of this library
//! state their contracts over `Grid`.

use vstd::arithmetic::div_mod::lemma_fundamental_div_mod;
use vstd::arithmetic::div_mod::lemma_fundamental_div_mod_converse;
use vstd::arithmetic::div_mod::lemma_mod_bound;
use vstd::prelude::*;

verus! {

/// A board of `width` by `height` cells, stored row by row: the cell in row
/// `r` and column `c` is `cells[r * width + c]`.
pub struct Grid {
    pub width: nat,
    pub height: nat,
    pub cells: Seq<bool>,
}

impl Grid {
    /// The board holds exactly one cell for each position.
    pub open spec fn wf(self) -> bool {
        self.cells.len() == self.width * self.height
    }

    /// The board of the given size on which no cell is alive.
    pub open spec fn dead(width: nat, height: nat) -> Grid {
        Grid { width, height, cells: Seq::new(width * height, |i: int| false) }
    }

    /// This board with other cells.
    pub open spec fn with_cells(self, cells: Seq<bool>) -> Grid {
        Grid { width: self.width, height: self.height, cells }
    }

    /// This board with every cell dead.
    pub open spec fn cleared(self) -> Grid {
        Grid::dead(self.width, self.height)
    }

    /// Whether (`row`, `col`) is a position of the board.
    pub open spec fn contains(self, row: int, col: int) -> bool {
        0 <= row < self.height && 0 <= col < self.width
    }

    /// Where the cell of a position is stored.
    pub open spec fn index(self, row: int, col: int) -> int {
        row * self.width + col
    }

    /// Whether the cell at (`row`, `col`) is alive.
    pub open spec fn alive(self, row: int, col: int) -> bool {
        self.cells[self.index(row, col)]
    }

    /// The board after the cell at (`row`, `col`) has changed its state.
    pub open spec fn toggled(self, row: int, col: int) -> Grid {
        let i = self.index(row, col);
        self.with_cells(self.cells.update(i, !self.cells[i]))
    }

    /// Whether one of `coords` is the position stored at `i`.
    pub open spec fn names(self, coords: Seq<(u32, u32)>, i: int) -> bool {
        exists|k: int|
            0 <= k < coords.len() && self.index((#[trigger] coords[k]).0 as int, coords[k].1 as int)
                == i
    }

    /// The board after every position in `coords` has come alive.
    pub open spec fn marked(self, coords: Seq<(u32, u32)>) -> Grid {
        self.with_cells(
            Seq::new(self.cells.len(), |i: int| self.cells[i] || self.names(coords, i)),
        )
    }

    /// The three offsets along an axis of `extent` cells, in the order in
    /// which neighbors are visited: one step back (written as `extent - 1`
    /// steps forward), none, one step forward.
    pub open spec fn offset(extent: nat, k: int) -> int {
        if k == 0 {
            extent - 1
        } else if k == 1 {
            0
        } else {
            1
        }
    }

    /// What the pair of the `i`-th row offset and the `j`-th column offset
    /// adds to the neighbor count of (`row`, `col`): nothing when both
    /// offsets are zero, else 1 exactly when the cell reached around the
    /// edges is alive.
    pub open spec fn neighbor(self, row: int, col: int, i: int, j: int) -> nat {
        let dr = Self::offset(self.height, i);
        let dc = Self::offset(self.width, j);
        if dr == 0 && dc == 0 {
            0
        } else if self.alive((row + dr) % (self.height as int), (col + dc) % (self.width as int)) {
            1
        } else {
            0
        }
    }

    /// The sum of `neighbor` over the first `k` of the nine pairs of
    /// offsets, taken row offset by row offset.
    pub open spec fn neighbors_among(self, row: int, col: int, k: nat) -> nat
        decreases k,
    {
        if k == 0 {
            0
        } else {
            self.neighbors_among(row, col, (k - 1) as nat) + self.neighbor(
                row,
                col,
                (k - 1) / 3,
                (k - 1) % 3,
            )
        }
    }

    /// The number of live neighbors of (`row`, `col`) on the torus.
    pub open spec fn live_neighbors(self, row: int, col: int) -> nat {
        self.neighbors_among(row, col, 9)
    }

    /// The state of a cell in the next generation, from its state and the
    /// number of its live neighbors: a live cell stays alive with two or
    /// three of them, a dead cell comes alive with exactly three.
    pub open spec fn next_state(alive: bool, neighbors: nat) -> bool {
        if alive {
            neighbors == 2 || neighbors == 3
        } else {
            neighbors == 3
        }
    }

    /// The next state of the cell stored at `i`.
    pub open spec fn next_cell(self, i: int) -> bool {
        Self::next_state(
            self.cells[i],
            self.live_neighbors(i / (self.width as int), i % (self.width as int)),
        )
    }

    /// The next generation: every cell takes its next state, all of them
    /// judged on this board.
    pub open spec fn step(self) -> Grid {
        self.with_cells(Seq::new(self.cells.len(), |i: int| self.next_cell(i)))
    }

    /// The board `n` generations on.
    pub open spec fn steps(self, n: nat) -> Grid
        decreases n,
    {
        if n == 0 {
            self
        } else {
            self.step().steps((n - 1) as nat)
        }
    }

    /// Whether `shape` can be stamped with its first cell stored at
    /// `start`: its rows are no wider than the board's, and its last cell
    /// still lands on the board.
    pub open spec fn admits(self, start: int, shape: Grid) -> bool {
        &&& 0 <= start
        &&& 0 < shape.width <= self.width
        &&& 0 < shape.height
        &&& start + (shape.height - 1) * self.width + shape.width <= self.cells.len()
    }

    /// The board after `shape` has been stamped with its first cell stored
    /// at `start`. Cell (`k`, `j`) of the shape lands at `start + k * width +
    /// j`, whether or not that is still in the row where the stamp began;
    /// every other cell stays as it was.
    pub open spec fn stamp(self, start: int, shape: Grid) -> Grid {
        self.with_cells(
            Seq::new(
                self.cells.len(),
                |i: int|
                    {
                        let k = (i - start) / (self.width as int);
                        let j = (i - start) % (self.width as int);
                        if start <= i && k < shape.height && j < shape.width {
                            shape.alive(k, j)
                        } else {
                            self.cells[i]
                        }
                    },
            ),
        )
    }
}

/// A position of a well-formed board is stored inside `cells`, and nowhere
/// else than at its row times the width plus its column.
pub proof fn lemma_index(g: Grid, row: int, col: int)
    requires
        g.wf(),
        g.contains(row, col),
    ensures
        0 <= g.index(row, col) < g.cells.len(),
        g.index(row, col) / (g.width as int) == row,
        g.index(row, col) % (g.width as int) == col,
{
    let w = g.width as int;
    let h = g.height as int;
    assert(0 <= row * w && row * w + w <= w * h) by (nonlinear_arith)
        requires
            0 <= row < h,
            0 < w,
    ;
    lemma_fundamental_div_mod_converse(row * w + col, w, row, col);
}

/// Every cell of a well-formed board is the cell of one position.
pub proof fn lemma_position(g: Grid, i: int)
    requires
        g.wf(),
        0 <= i < g.cells.len(),
    ensures
        g.contains(i / (g.width as int), i % (g.width as int)),
        g.index(i / (g.width as int), i % (g.width as int)) == i,
{
    let w = g.width as int;
    let h = g.height as int;
    assert(w > 0) by (nonlinear_arith)
        requires
            0 <= i < w * h,
            0 <= w,
    ;
    lemma_fundamental_div_mod(i, w);
    lemma_mod_bound(i, w);
    let q = i / w;
    assert(0 <= q < h) by (nonlinear_arith)
        requires
            0 <= i < w * h,
            i == w * q + i % w,
            0 <= i % w < w,
    ;
    assert(w * q == q * w) by (nonlinear_arith);
}

/// On an axis of `n` cells, stepping from `x` by each of the three offsets
/// and reducing modulo `n` gives the cell before `x`, `x` itself and the
/// cell after `x`, the first and the last taken around the edge.
pub proof fn lemma_wrap(x: int, n: nat)
    requires
        0 <= x < n,
    ensures
        (x + Grid::offset(n, 0)) % (n as int) == if x == 0 {
            n - 1
        } else {
            x - 1
        },
        (x + Grid::offset(n, 1)) % (n as int) == x,
        (x + Grid::offset(n, 2)) % (n as int) == if x + 1 == n {
            0
        } else {
            x + 1
        },
{
    let m = n as int;
    if x == 0 {
        lemma_fundamental_div_mod_converse(x + m - 1, m, 0, m - 1);
    } else {
        lemma_fundamental_div_mod_converse(x + m - 1, m, 1, x - 1);
    }
    lemma_fundamental_div_mod_converse(x, m, 0, x);
    if x + 1 == m {
        lemma_fundamental_div_mod_converse(x + 1, m, 1, 0);
    } else {
        lemma_fundamental_div_mod_converse(x + 1, m, 0, x + 1);
    }
}

} // verus!
