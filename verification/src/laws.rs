//! What follows from the rule of the game and from how patterns are
//! stamped, proved over the model.

use crate::grid::lemma_index;
use crate::grid::lemma_position;
use crate::grid::lemma_wrap;
use crate::grid::Grid;
use crate::shapes::lemma_pattern_cell;
use crate::shapes::AvailableShapes;
use vstd::arithmetic::div_mod::lemma_fundamental_div_mod_converse;
use vstd::prelude::*;

verus! {

/// The cell before `x` on an axis of `n` cells that closes on itself.
pub open spec fn before(x: int, n: nat) -> int {
    if x == 0 {
        n - 1
    } else {
        x - 1
    }
}

/// The cell after `x` on an axis of `n` cells that closes on itself.
pub open spec fn after(x: int, n: nat) -> int {
    if x + 1 == n {
        0
    } else {
        x + 1
    }
}

/// 1 for a live cell, 0 for a dead one.
pub open spec fn count(g: Grid, row: int, col: int) -> nat {
    if g.alive(row, col) {
        1
    } else {
        0
    }
}

/// One generation, cell by cell: the size of the board stays, and the cell
/// at a position dies with fewer than two or more than three live
/// neighbors, lives on with two or three, comes alive with exactly three,
/// and stays dead otherwise.
pub proof fn lemma_step_rule(g: Grid, row: int, col: int)
    requires
        g.wf(),
        g.contains(row, col),
    ensures
        g.step().wf(),
        g.step().width == g.width,
        g.step().height == g.height,
        g.step().alive(row, col) == Grid::next_state(g.alive(row, col), g.live_neighbors(row, col)),
        g.alive(row, col) && g.live_neighbors(row, col) < 2 ==> !g.step().alive(row, col),
        g.alive(row, col) && 2 <= g.live_neighbors(row, col) <= 3 ==> g.step().alive(row, col),
        g.alive(row, col) && g.live_neighbors(row, col) > 3 ==> !g.step().alive(row, col),
        !g.alive(row, col) && g.live_neighbors(row, col) == 3 ==> g.step().alive(row, col),
        !g.alive(row, col) && g.live_neighbors(row, col) != 3 ==> !g.step().alive(row, col),
{
    lemma_index(g, row, col);
}

/// On a board of at least two rows and two columns, the live neighbors of
/// a position are the live cells among the eight around it, the board
/// closing on itself at its edges.
pub proof fn lemma_eight_neighbors(g: Grid, row: int, col: int)
    requires
        g.wf(),
        g.contains(row, col),
        g.width >= 2,
        g.height >= 2,
    ensures
        g.contains(before(row, g.height), before(col, g.width)),
        g.contains(after(row, g.height), after(col, g.width)),
        g.live_neighbors(row, col) == count(g, before(row, g.height), before(col, g.width)) + count(
            g,
            before(row, g.height),
            col,
        ) + count(g, before(row, g.height), after(col, g.width)) + count(
            g,
            row,
            before(col, g.width),
        ) + count(g, row, after(col, g.width)) + count(
            g,
            after(row, g.height),
            before(col, g.width),
        ) + count(g, after(row, g.height), col) + count(
            g,
            after(row, g.height),
            after(col, g.width),
        ),
{
    lemma_wrap(row, g.height);
    lemma_wrap(col, g.width);
    reveal_with_fuel(Grid::neighbors_among, 10);
}

/// Two well-formed boards of one size on which the same positions are
/// alive are the same board.
pub proof fn lemma_same_board(a: Grid, b: Grid)
    requires
        a.wf(),
        b.wf(),
        a.width == b.width,
        a.height == b.height,
        forall|row: int, col: int| a.contains(row, col) ==> a.alive(row, col) == b.alive(row, col),
    ensures
        a == b,
{
    assert forall|i: int| 0 <= i < a.cells.len() implies a.cells[i] == b.cells[i] by {
        lemma_position(a, i);
        let row = i / (a.width as int);
        let col = i % (a.width as int);
        assert(a.alive(row, col) == b.alive(row, col));
    }
    assert(a.cells =~= b.cells);
}

/// A board without a live cell has none in any later generation.
pub proof fn lemma_dead_stays_dead(width: nat, height: nat, n: nat)
    ensures
        Grid::dead(width, height).steps(n) == Grid::dead(width, height),
    decreases n,
{
    let g = Grid::dead(width, height);
    if n > 0 {
        assert forall|i: int| 0 <= i < g.cells.len() implies !g.next_cell(i) by {
            lemma_position(g, i);
            let row = i / (width as int);
            let col = i % (width as int);
            lemma_wrap(row, height);
            lemma_wrap(col, width);
            reveal_with_fuel(Grid::neighbors_among, 10);
            assert forall|r: int, c: int| g.contains(r, c) implies !g.alive(r, c) by {
                lemma_index(g, r, c);
            }
            assert(g.live_neighbors(row, col) == 0);
        }
        assert(g.step().cells =~= g.cells);
        lemma_dead_stays_dead(width, height, (n - 1) as nat);
    }
}

/// A board that one generation leaves as it is stays so for good.
pub proof fn lemma_still_for_good(g: Grid, n: nat)
    requires
        g.step() == g,
    ensures
        g.steps(n) == g,
    decreases n,
{
    if n > 0 {
        lemma_still_for_good(g, (n - 1) as nat);
    }
}

/// Randomizing a board and then resetting it leaves the board of the same
/// size without a live cell, whatever was drawn.
pub proof fn lemma_reset_after_randomize(g: Grid, draws: Seq<bool>)
    ensures
        g.with_cells(draws).cleared() == Grid::dead(g.width, g.height),
        g.with_cells(draws).cleared().width == g.width,
        g.with_cells(draws).cleared().height == g.height,
        forall|i: int|
            0 <= i < g.width * g.height ==> !(#[trigger] g.with_cells(draws).cleared().cells[i]),
{
}

/// Cell (`k`, `j`) of a stamped shape lands `k` widths of the board and
/// `j` cells after the start, wherever on the board that is.
pub proof fn lemma_stamp_cell(board: Grid, start: int, shape: Grid, k: int, j: int)
    requires
        board.admits(start, shape),
        0 <= k < shape.height,
        0 <= j < shape.width,
    ensures
        0 <= start + k * board.width + j < board.cells.len(),
        board.stamp(start, shape).cells[start + k * board.width + j] == shape.alive(k, j),
{
    let w = board.width as int;
    assert(0 <= k * w <= (shape.height - 1) * w) by (nonlinear_arith)
        requires
            0 <= k <= shape.height - 1,
            0 <= w,
    ;
    lemma_fundamental_div_mod_converse(k * w + j, w, k, j);
}

/// A shape that is stamped where it does not reach past the right or the
/// lower edge covers a rectangle of the board, and the rest of the board
/// stays as it was.
pub proof fn lemma_stamp_inside(board: Grid, row: int, col: int, shape: Grid, r: int, c: int)
    requires
        board.wf(),
        0 <= row,
        0 <= col,
        0 < shape.width,
        0 < shape.height,
        row + shape.height <= board.height,
        col + shape.width <= board.width,
        board.contains(r, c),
    ensures
        board.admits(board.index(row, col), shape),
        board.stamp(board.index(row, col), shape).wf(),
        board.stamp(board.index(row, col), shape).alive(r, c) == if row <= r < row + shape.height
            && col <= c < col + shape.width {
            shape.alive(r - row, c - col)
        } else {
            board.alive(r, c)
        },
{
    let w = board.width as int;
    let h = board.height as int;
    let sw = shape.width as int;
    let sh = shape.height as int;
    let start = board.index(row, col);
    lemma_index(board, r, c);
    assert(0 <= row * w && (row + sh - 1) * w + w <= h * w && (row + sh - 1) * w == row * w + (sh
        - 1) * w && h * w == w * h) by (nonlinear_arith)
        requires
            0 <= row,
            row + sh <= h,
            0 <= w,
    ;
    let d = board.index(r, c) - start;
    assert(d == (r - row) * w + (c - col)) by (nonlinear_arith)
        requires
            d == (r * w + c) - (row * w + col),
    ;
    if c >= col {
        lemma_fundamental_div_mod_converse(d, w, r - row, c - col);
        assert(r >= row ==> (r - row) * w >= 0) by (nonlinear_arith)
            requires
                0 <= w,
        ;
        assert(r < row ==> (r - row) * w <= -w) by (nonlinear_arith)
            requires
                0 <= w,
        ;
    } else {
        assert(d == (r - row - 1) * w + (c - col + w)) by (nonlinear_arith)
            requires
                d == (r - row) * w + (c - col),
        ;
        lemma_fundamental_div_mod_converse(d, w, r - row - 1, c - col + w);
    }
}

/// A blinker on an empty board of at least four rows and four columns:
/// stamped as an upright bar of three cells, it is a level bar through the
/// same middle cell one generation on, and the upright bar again after
/// two.
pub proof fn lemma_blinker_oscillates(width: nat, height: nat, row: int, col: int)
    requires
        4 <= width,
        4 <= height,
        0 <= row,
        row + 3 <= height,
        0 <= col < width,
    ensures
        ({
            let empty = Grid::dead(width, height);
            let upright = empty.stamp(empty.index(row, col), AvailableShapes::Blinker.pattern());
            &&& empty.admits(empty.index(row, col), AvailableShapes::Blinker.pattern())
            &&& forall|r: int, c: int|
                empty.contains(r, c) ==> (#[trigger] upright.alive(r, c) <==> c == col && row <= r
                    < row + 3)
            &&& forall|r: int, c: int|
                empty.contains(r, c) ==> (#[trigger] upright.step().alive(r, c) <==> r == row + 1
                    && (c == before(col, width) || c == col || c == after(col, width)))
            &&& upright.steps(2) == upright
        }),
{
    let empty = Grid::dead(width, height);
    let bar = AvailableShapes::Blinker.pattern();
    let upright = empty.stamp(empty.index(row, col), bar);
    assert(bar.width == 1 && bar.height == 3);
    lemma_pattern_cell(AvailableShapes::Blinker, 0, 0);
    lemma_pattern_cell(AvailableShapes::Blinker, 1, 0);
    lemma_pattern_cell(AvailableShapes::Blinker, 2, 0);
    lemma_stamp_inside(empty, row, col, bar, row, col);
    assert forall|r: int, c: int| empty.contains(r, c) implies (#[trigger] upright.alive(r, c) <==> c
        == col && row <= r < row + 3) by {
        lemma_stamp_inside(empty, row, col, bar, r, c);
        lemma_index(empty, r, c);
    }
    let level = upright.step();
    assert forall|r: int, c: int| empty.contains(r, c) implies (#[trigger] level.alive(r, c) <==> r
        == row + 1 && (c == before(col, width) || c == col || c == after(col, width))) by {
        lemma_step_rule(upright, r, c);
        lemma_eight_neighbors(upright, r, c);
    }
    let again = level.step();
    assert forall|r: int, c: int| upright.contains(r, c) implies again.alive(r, c)
        == upright.alive(r, c) by {
        lemma_step_rule(upright, r, c);
        lemma_step_rule(level, r, c);
        lemma_eight_neighbors(level, r, c);
    }
    lemma_step_rule(upright, row, col);
    lemma_step_rule(level, row, col);
    lemma_same_board(again, upright);
    assert(upright.steps(2) == again) by {
        reveal_with_fuel(Grid::steps, 3);
    }
}

/// A block on an empty board of at least three rows and three columns,
/// stamped where its two columns are in one row: no generation changes
/// it.
pub proof fn lemma_block_is_still(width: nat, height: nat, row: int, col: int, n: nat)
    requires
        3 <= width,
        3 <= height,
        0 <= row,
        row + 2 <= height,
        0 <= col,
        col + 2 <= width,
    ensures
        ({
            let empty = Grid::dead(width, height);
            let block = empty.stamp(empty.index(row, col), AvailableShapes::Square.pattern());
            &&& empty.admits(empty.index(row, col), AvailableShapes::Square.pattern())
            &&& forall|r: int, c: int|
                empty.contains(r, c) ==> (#[trigger] block.alive(r, c) <==> row <= r < row + 2 && col
                    <= c < col + 2)
            &&& block.steps(n) == block
        }),
{
    let empty = Grid::dead(width, height);
    let square = AvailableShapes::Square.pattern();
    let block = empty.stamp(empty.index(row, col), square);
    assert(square.width == 2 && square.height == 2);
    lemma_pattern_cell(AvailableShapes::Square, 0, 0);
    lemma_pattern_cell(AvailableShapes::Square, 0, 1);
    lemma_pattern_cell(AvailableShapes::Square, 1, 0);
    lemma_pattern_cell(AvailableShapes::Square, 1, 1);
    lemma_stamp_inside(empty, row, col, square, row, col);
    assert forall|r: int, c: int| empty.contains(r, c) implies (#[trigger] block.alive(r, c) <==> row
        <= r < row + 2 && col <= c < col + 2) by {
        lemma_stamp_inside(empty, row, col, square, r, c);
        lemma_index(empty, r, c);
    }
    assert forall|r: int, c: int| block.contains(r, c) implies block.step().alive(r, c)
        == block.alive(r, c) by {
        lemma_step_rule(block, r, c);
        lemma_eight_neighbors(block, r, c);
    }
    lemma_step_rule(block, row, col);
    lemma_same_board(block.step(), block);
    lemma_still_for_good(block, n);
}

} // verus!
