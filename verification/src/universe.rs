//! The universe: a board of cells held in a bit set, and the operations
//! that a host drives it with.

use crate::bitset::bits;
use crate::bitset::packs;
use crate::grid::lemma_index;
use crate::grid::Grid;
use crate::shapes::lemma_rows_rectangular;
use crate::shapes::AvailableShapes;
use crate::shapes::Shape;
use crate::shapes::ShapeError;
use fixedbitset::FixedBitSet;
use vstd::arithmetic::div_mod::lemma_fundamental_div_mod;
use vstd::arithmetic::div_mod::lemma_fundamental_div_mod_converse;
use vstd::arithmetic::div_mod::lemma_mod_bound;
use vstd::prelude::*;

verus! {

/// A toroidal board of cells, each dead or alive.
pub struct Universe {
    width: u32,
    height: u32,
    cells: FixedBitSet,
}

impl View for Universe {
    type V = Grid;

    closed spec fn view(&self) -> Grid {
        Grid { width: self.width as nat, height: self.height as nat, cells: bits(self.cells) }
    }
}

/// The board that a new universe starts from: 64 by 64 cells, of which
/// those stored at an even index or at a multiple of 7 are alive.
pub open spec fn seed() -> Grid {
    Grid { width: 64, height: 64, cells: Seq::new(4096, |i: int| i % 2 == 0 || i % 7 == 0) }
}

/// The cells of `board` once the first `n` cells of `shape`, counted row by
/// row, have been stamped from `start` on.
spec fn stamped_upto(board: Grid, start: int, shape: Grid, n: int) -> Seq<bool> {
    Seq::new(
        board.cells.len(),
        |x: int|
            {
                let k = (x - start) / (board.width as int);
                let j = (x - start) % (board.width as int);
                if start <= x && j < shape.width && k * shape.width + j < n {
                    shape.alive(k, j)
                } else {
                    board.cells[x]
                }
            },
    )
}

/// Where the `i`-th cell of `shape` lands, and that stamping it is one
/// update of the cells stamped so far.
proof fn lemma_stamp_next(board: Grid, start: int, shape: Grid, i: int)
    requires
        board.admits(start, shape),
        0 <= i < shape.width * shape.height,
    ensures
        ({
            let k = i / (shape.width as int);
            let j = i % (shape.width as int);
            let target = start + i + (board.width - shape.width) * k;
            &&& 0 <= k < shape.height
            &&& 0 <= j < shape.width
            &&& 0 <= (board.width - shape.width) * k
            &&& target == start + k * board.width + j
            &&& 0 <= target < board.cells.len()
            &&& shape.index(k, j) == i
            &&& stamped_upto(board, start, shape, i + 1) == stamped_upto(
                board,
                start,
                shape,
                i,
            ).update(target, shape.cells[i])
        }),
{
    let w = board.width as int;
    let sw = shape.width as int;
    let sh = shape.height as int;
    let k = i / sw;
    let j = i % sw;
    let target = start + i + (w - sw) * k;
    lemma_fundamental_div_mod(i, sw);
    lemma_mod_bound(i, sw);
    assert(0 <= k < sh) by (nonlinear_arith)
        requires
            0 <= i < sw * sh,
            i == sw * k + j,
            0 <= j < sw,
    ;
    assert(sw * k == k * sw) by (nonlinear_arith);
    assert((w - sw) * k == k * w - k * sw) by (nonlinear_arith);
    assert(0 <= (w - sw) * k && k * w <= (sh - 1) * w) by (nonlinear_arith)
        requires
            0 <= k <= sh - 1,
            0 <= w - sw,
            0 <= w,
    ;
    lemma_fundamental_div_mod_converse(target - start, w, k, j);
    let before = stamped_upto(board, start, shape, i);
    let after = stamped_upto(board, start, shape, i + 1);
    assert forall|x: int| 0 <= x < board.cells.len() implies after[x] == before.update(
        target,
        shape.cells[i],
    )[x] by {
        let kx = (x - start) / w;
        let jx = (x - start) % w;
        lemma_fundamental_div_mod(x - start, w);
        lemma_mod_bound(x - start, w);
        if x != target && start <= x && jx < sw && kx * sw + jx == i {
            lemma_fundamental_div_mod_converse(i, sw, kx, jx);
            assert(w * kx == kx * w) by (nonlinear_arith);
        }
    }
    assert(after =~= before.update(target, shape.cells[i]));
}

/// Stamping none of the cells changes nothing, and stamping all of them is
/// the stamp.
proof fn lemma_stamp_ends(board: Grid, start: int, shape: Grid)
    requires
        board.admits(start, shape),
    ensures
        stamped_upto(board, start, shape, 0) == board.cells,
        stamped_upto(board, start, shape, (shape.width * shape.height) as int) == board.stamp(
            start,
            shape,
        ).cells,
{
    let w = board.width as int;
    let sw = shape.width as int;
    let sh = shape.height as int;
    let all = stamped_upto(board, start, shape, sw * sh);
    assert forall|x: int| 0 <= x < board.cells.len() implies #[trigger] all[x] == board.stamp(
        start,
        shape,
    ).cells[x] && stamped_upto(board, start, shape, 0)[x] == board.cells[x] by {
        let k = (x - start) / w;
        let j = (x - start) % w;
        lemma_fundamental_div_mod(x - start, w);
        lemma_mod_bound(x - start, w);
        if start <= x {
            assert(0 <= k) by (nonlinear_arith)
                requires
                    0 <= x - start,
                    x - start == w * k + j,
                    0 <= j < w,
            ;
            assert(0 <= k * sw) by (nonlinear_arith)
                requires
                    0 <= k,
                    0 <= sw,
            ;
            if j < sw {
                assert((k < sh) <==> (k * sw + j < sw * sh)) by (nonlinear_arith)
                    requires
                        0 <= j < sw,
                        0 <= k,
                        0 < sh,
                ;
            }
        }
    }
    assert(all =~= board.stamp(start, shape).cells);
    assert(stamped_upto(board, start, shape, 0) =~= board.cells);
}

impl Universe {
    /// What holds of every universe that this library hands out: there is
    /// one cell for each position, and their number fits in `usize`.
    pub open spec fn wf(&self) -> bool {
        &&& self@.wf()
        &&& self@.cells.len() <= usize::MAX
    }

    fn get_index(&self, row: u32, column: u32) -> (index: usize)
        requires
            row * self.width + column <= usize::MAX,
        ensures
            index == self@.index(row as int, column as int),
    {
        row as usize * self.width as usize + column as usize
    }

    fn live_neighbor_count(&self, row: u32, column: u32) -> (count: u8)
        requires
            self.wf(),
            self@.contains(row as int, column as int),
        ensures
            count == self@.live_neighbors(row as int, column as int),
    {
        let mut count: u8 = 0;
        let row_deltas: [u32; 3] = [self.height - 1, 0, 1];
        let col_deltas: [u32; 3] = [self.width - 1, 0, 1];
        for i in 0..3usize
            invariant
                self.wf(),
                self@.contains(row as int, column as int),
                forall|k: int| 0 <= k < 3 ==> row_deltas@[k] == Grid::offset(self@.height, k),
                forall|k: int| 0 <= k < 3 ==> col_deltas@[k] == Grid::offset(self@.width, k),
                count <= 3 * i,
                count == self@.neighbors_among(row as int, column as int, (3 * i) as nat),
        {
            let delta_row: u32 = row_deltas[i];
            for j in 0..3usize
                invariant
                    i < 3,
                    self.wf(),
                    self@.contains(row as int, column as int),
                    delta_row == Grid::offset(self@.height, i as int),
                    forall|k: int| 0 <= k < 3 ==> col_deltas@[k] == Grid::offset(self@.width, k),
                    count <= 3 * i + j,
                    count == self@.neighbors_among(
                        row as int,
                        column as int,
                        (3 * i + j) as nat,
                    ),
            {
                let delta_col: u32 = col_deltas[j];
                assert((3 * i + j) / 3 == i && (3 * i + j) % 3 == j);
                if !(delta_row == 0 && delta_col == 0) {
                    let neighbor_row: u32 = ((row as u64 + delta_row as u64) % (
                    self.height as u64)) as u32;
                    let neighbor_col: u32 = ((column as u64 + delta_col as u64) % (
                    self.width as u64)) as u32;
                    proof {
                        lemma_index(self@, neighbor_row as int, neighbor_col as int);
                    }
                    let idx: usize = self.get_index(neighbor_row, neighbor_col);
                    if self.cells.contains(idx) {
                        count += 1;
                    }
                }
            }
        }
        count
    }

    /// Advances the board by one generation.
    pub fn tick(&mut self)
        requires
            old(self).wf(),
        ensures
            final(self).wf(),
            final(self)@ == old(self)@.step(),
    {
        let mut next = self.cells.clone();
        for row in 0..self.height
            invariant
                *self == *old(self),
                self.wf(),
                bits(next).len() == self@.cells.len(),
                forall|i: int| 0 <= i < row * self.width ==> bits(next)[i] == self@.next_cell(i),
        {
            for col in 0..self.width
                invariant
                    *self == *old(self),
                    row < self.height,
                    self.wf(),
                    bits(next).len() == self@.cells.len(),
                    forall|i: int|
                        0 <= i < row * self.width + col ==> bits(next)[i] == self@.next_cell(i),
            {
                proof {
                    lemma_index(self@, row as int, col as int);
                }
                let idx: usize = self.get_index(row, col);
                let cell: bool = self.cells.contains(idx);
                let live_neighbors: u8 = self.live_neighbor_count(row, col);
                next.set(
                    idx,
                    match (cell, live_neighbors) {
                        (true, x) if x < 2 => false,
                        (true, 2) | (true, 3) => true,
                        (true, x) if x > 3 => false,
                        (false, 3) => true,
                        (otherwise, _) => otherwise,
                    },
                );
            }
            assert(row * self.width + self.width == (row + 1) * self.width) by (nonlinear_arith);
        }
        proof {
            assert(self.height * self.width == self.width * self.height) by (nonlinear_arith);
            assert(bits(next) =~= self@.step().cells);
        }
        self.cells = next;
    }

    /// A universe of 64 by 64 cells, of which those stored at an even index
    /// or at a multiple of 7 are alive.
    pub fn new() -> (universe: Universe)
        ensures
            universe.wf(),
            universe@ == seed(),
    {
        let width: u32 = 64;
        let height: u32 = 64;
        let size: usize = (width * height) as usize;
        let mut cells = FixedBitSet::with_capacity(size);
        for i in 0..size
            invariant
                size == 4096,
                bits(cells).len() == size,
                forall|k: int| 0 <= k < i ==> bits(cells)[k] == (k % 2 == 0 || k % 7 == 0),
        {
            cells.set(i, i % 2 == 0 || i % 7 == 0);
        }
        assert(bits(cells) =~= seed().cells);
        Universe { width, height, cells }
    }

    /// The number of columns.
    pub fn width(&self) -> (width: u32)
        ensures
            width == self@.width,
    {
        self.width
    }

    /// The number of rows.
    pub fn height(&self) -> (height: u32)
        ensures
            height == self@.height,
    {
        self.height
    }

    /// The cells as packed blocks of 32, the lowest bit of a block first:
    /// bit `i` is set exactly when the cell stored at `i` is alive.
    pub fn cells(&self) -> (blocks: &[u32])
        ensures
            packs(blocks@, self@.cells),
    {
        self.cells.as_slice()
    }

    /// Sets the number of columns and leaves every cell dead.
    pub fn set_width(&mut self, width: u32)
        requires
            width * old(self)@.height <= usize::MAX,
        ensures
            final(self).wf(),
            final(self)@ == Grid::dead(width as nat, old(self)@.height),
    {
        let size: usize = width as usize * self.height as usize;
        *self = Universe { width, height: self.height, cells: FixedBitSet::with_capacity(size) };
    }

    /// Sets the number of rows and leaves every cell dead.
    pub fn set_height(&mut self, height: u32)
        requires
            old(self)@.width * height <= usize::MAX,
        ensures
            final(self).wf(),
            final(self)@ == Grid::dead(old(self)@.width, height as nat),
    {
        let size: usize = self.width as usize * height as usize;
        *self = Universe { width: self.width, height, cells: FixedBitSet::with_capacity(size) };
    }

    /// Changes the state of the cell at (`row`, `column`).
    pub fn toggle_cell(&mut self, row: u32, column: u32)
        requires
            old(self).wf(),
            old(self)@.contains(row as int, column as int),
        ensures
            final(self).wf(),
            final(self)@ == old(self)@.toggled(row as int, column as int),
    {
        proof {
            lemma_index(self@, row as int, column as int);
        }
        let idx: usize = self.get_index(row, column);
        let cell: bool = self.cells.contains(idx);
        self.cells.set(idx, !cell);
    }

    /// Leaves every cell dead. The size stays.
    pub fn reset(&mut self)
        requires
            old(self).wf(),
        ensures
            final(self).wf(),
            final(self)@ == old(self)@.cleared(),
    {
        assert(self.height * self.width == self.width * self.height) by (nonlinear_arith);
        let size: usize = self.height as usize * self.width as usize;
        self.cells = FixedBitSet::with_capacity(size);
    }

    /// Gives every cell the state drawn for it: the cell stored at `i` is
    /// alive exactly when `draws[i]` is.
    pub fn randomize(&mut self, draws: &[bool])
        requires
            old(self).wf(),
            draws@.len() == old(self)@.cells.len(),
        ensures
            final(self).wf(),
            final(self)@ == old(self)@.with_cells(draws@),
    {
        self.reset();
        let size: usize = draws.len();
        for i in 0..size
            invariant
                size == draws@.len(),
                self@.width == old(self)@.width,
                self@.height == old(self)@.height,
                self@.cells.len() == size,
                forall|k: int| 0 <= k < i ==> self@.cells[k] == draws@[k],
        {
            self.cells.set(i, draws[i]);
        }
        assert(self@.cells =~= draws@);
    }

    /// Whether `draw_shape` may be called with these arguments.
    pub fn can_draw_shape(&self, row: u32, col: u32, shape: &str) -> (can: bool)
        requires
            self.wf(),
        ensures
            can == self@.may_draw(row as int, col as int, shape@),
    {
        match AvailableShapes::from_name(shape) {
            None => true,
            Some(kind) => {
                let shape_to_draw = Shape::new(kind);
                let shape_width: u32 = shape_to_draw.width();
                let shape_height: u32 = shape_to_draw.height();
                if shape_width == 0 || shape_height == 0 || shape_width > self.width {
                    false
                } else {
                    let width: u128 = self.width as u128;
                    assert(row * width <= 0xffff_ffff * 0xffff_ffff && (shape_height - 1) * width
                        <= 0xffff_ffff * 0xffff_ffff && width * self.height <= 0xffff_ffff
                        * 0xffff_ffff) by (nonlinear_arith)
                        requires
                            row <= 0xffff_ffff,
                            shape_height - 1 <= 0xffff_ffff,
                            self.height <= 0xffff_ffff,
                            width <= 0xffff_ffff,
                    ;
                    let start: u128 = row as u128 * width + col as u128;
                    let end: u128 = start + (shape_height - 1) as u128 * width
                        + shape_width as u128;
                    end <= width * self.height as u128
                }
            },
        }
    }

    /// Stamps the pattern called `shape` onto the board, its top left cell
    /// at (`row`, `col`). The cells of the pattern are laid out by their
    /// index in the universe's cells, so a pattern that reaches past the
    /// right edge goes on in the next row. An unknown name is an error, and
    /// leaves the board as it is.
    pub fn draw_shape(&mut self, row: u32, col: u32, shape: &str) -> (outcome: Result<
        (),
        ShapeError,
    >)
        requires
            old(self).wf(),
            old(self)@.may_draw(row as int, col as int, shape@),
        ensures
            final(self).wf(),
            final(self)@ == old(self)@.drawn(row as int, col as int, shape@),
            outcome is Ok <==> AvailableShapes::named(shape@) is Some,
            outcome is Err ==> outcome == Err::<(), ShapeError>(ShapeError::UnsupportedShape),
    {
        let kind = match AvailableShapes::from_name(shape) {
            Some(kind) => kind,
            None => {
                return Err(ShapeError::UnsupportedShape);
            },
        };
        let shape_to_draw = Shape::new(kind);
        let shape_width: u32 = shape_to_draw.width();
        let shape_height: u32 = shape_to_draw.height();
        let ghost start = self@.index(row as int, col as int);
        proof {
            lemma_rows_rectangular(kind);
            lemma_stamp_ends(self@, start, shape_to_draw@);
            assert(shape_width * shape_height <= 36 * 13) by (nonlinear_arith)
                requires
                    shape_width <= 36,
                    shape_height <= 13,
            ;
            assert(0 <= (shape_height - 1) * self.width) by (nonlinear_arith)
                requires
                    0 <= shape_height - 1,
            ;
        }
        let offset: usize = self.get_index(row, col);
        let shape_size: u32 = shape_width * shape_height;
        for i in 0..shape_size
            invariant
                self.wf(),
                old(self)@.admits(start, shape_to_draw@),
                offset == start,
                shape_width == shape_to_draw@.width,
                shape_size == shape_to_draw@.width * shape_to_draw@.height,
                shape_to_draw@.cells.len() == shape_size,
                self@.width == old(self)@.width,
                self@.height == old(self)@.height,
                self@.cells == stamped_upto(old(self)@, start, shape_to_draw@, i as int),
        {
            proof {
                lemma_stamp_next(old(self)@, start, shape_to_draw@, i as int);
            }
            let row_offset: usize = (self.width - shape_width) as usize * (i / shape_width) as usize;
            let shape_idx: usize = i as usize;
            let univ_idx: usize = offset + shape_idx + row_offset;
            self.cells.set(univ_idx, shape_to_draw.get_cells().contains(shape_idx));
        }
        Ok(())
    }

    /// The cells, row by row.
    pub fn get_cells(&self) -> (cells: &FixedBitSet)
        ensures
            bits(*cells) == self@.cells,
    {
        &self.cells
    }

    /// Brings the cell at each of the given (row, column) pairs alive. The
    /// other cells stay as they are.
    pub fn set_cells(&mut self, cells: &[(u32, u32)])
        requires
            old(self).wf(),
            forall|k: int|
                0 <= k < cells@.len() ==> old(self)@.contains(
                    (#[trigger] cells@[k]).0 as int,
                    cells@[k].1 as int,
                ),
        ensures
            final(self).wf(),
            final(self)@ == old(self)@.marked(cells@),
    {
        let count: usize = cells.len();
        assert(self@.cells =~= self@.marked(cells@.take(0)).cells);
        for n in 0..count
            invariant
                count == cells@.len(),
                self.wf(),
                forall|k: int|
                    0 <= k < cells@.len() ==> self@.contains(
                        (#[trigger] cells@[k]).0 as int,
                        cells@[k].1 as int,
                    ),
                self@ == old(self)@.marked(cells@.take(n as int)),
        {
            let (row, col) = cells[n];
            proof {
                lemma_index(self@, row as int, col as int);
            }
            let idx: usize = self.get_index(row, col);
            self.cells.set(idx, true);
            proof {
                let before = cells@.take(n as int);
                let after = cells@.take(n + 1);
                let board = old(self)@;
                assert(after[n as int] == cells@[n as int]);
                assert forall|i: int| 0 <= i < board.cells.len() implies (board.names(after, i) <==> (
                board.names(before, i) || i == idx)) by {
                    if board.names(before, i) {
                        let k = choose|k: int|
                            0 <= k < before.len() && board.index(
                                (#[trigger] before[k]).0 as int,
                                before[k].1 as int,
                            ) == i;
                        assert(after[k] == before[k]);
                    }
                    if board.names(after, i) {
                        let k = choose|k: int|
                            0 <= k < after.len() && board.index(
                                (#[trigger] after[k]).0 as int,
                                after[k].1 as int,
                            ) == i;
                        if k < n {
                            assert(before[k] == after[k]);
                        }
                    }
                }
                assert(self@.cells =~= board.marked(after).cells);
            }
        }
        assert(cells@.take(count as int) =~= cells@);
    }
}

} // verus!
