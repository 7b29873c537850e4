//! The catalog of patterns: still lifes, oscillators, spaceships and a glider
//! gun, each a small rectangle of cells.

use crate::bitset::bits;
use crate::grid::lemma_index;
use crate::grid::Grid;
use fixedbitset::FixedBitSet;
use vstd::arithmetic::div_mod::lemma_fundamental_div_mod_converse;
use vstd::prelude::*;
use vstd::string::StrSliceExecFns;

verus! {

/// The patterns of the catalog.
#[derive(Clone, Copy, Debug, PartialEq, Eq, Structural)]
pub enum AvailableShapes {
    Square,
    Beehive,
    Loaf,
    Boat,
    Tub,
    Blinker,
    Toad,
    Beacon,
    Pulsar,
    PentaDeca,
    Glider,
    Lwss,
    Mwss,
    Hwss,
    GliderGen,
}

/// Why a pattern was not drawn.
#[derive(Clone, Copy, Debug, PartialEq, Eq, Structural)]
pub enum ShapeError {
    /// No pattern of the catalog goes by the name that was given.
    UnsupportedShape,
}

/// Whether two strings hold the same characters.
fn same_text(a: &str, b: &str) -> (same: bool)
    ensures
        same == (a@ == b@),
{
    let n: usize = a.unicode_len();
    if b.unicode_len() != n {
        return false;
    }
    let mut i: usize = 0;
    while i < n
        invariant
            i <= n,
            n == a@.len(),
            n == b@.len(),
            forall|k: int| 0 <= k < i ==> a@[k] == b@[k],
        decreases n - i,
    {
        if a.get_char(i) != b.get_char(i) {
            return false;
        }
        i += 1;
    }
    assert(a@ =~= b@);
    true
}

impl AvailableShapes {
    /// The pattern that goes by `name`, if there is one. Names are matched
    /// exactly, case included.
    pub open spec fn named(name: Seq<char>) -> Option<AvailableShapes> {
        if name == "box"@ {
            Some(AvailableShapes::Square)
        } else if name == "beehive"@ {
            Some(AvailableShapes::Beehive)
        } else if name == "loaf"@ {
            Some(AvailableShapes::Loaf)
        } else if name == "boat"@ {
            Some(AvailableShapes::Boat)
        } else if name == "tub"@ {
            Some(AvailableShapes::Tub)
        } else if name == "blinker"@ {
            Some(AvailableShapes::Blinker)
        } else if name == "toad"@ {
            Some(AvailableShapes::Toad)
        } else if name == "beacon"@ {
            Some(AvailableShapes::Beacon)
        } else if name == "pulsar"@ {
            Some(AvailableShapes::Pulsar)
        } else if name == "pentadeca"@ {
            Some(AvailableShapes::PentaDeca)
        } else if name == "glider"@ {
            Some(AvailableShapes::Glider)
        } else if name == "lwss"@ {
            Some(AvailableShapes::Lwss)
        } else if name == "mwss"@ {
            Some(AvailableShapes::Mwss)
        } else if name == "hwss"@ {
            Some(AvailableShapes::Hwss)
        } else if name == "glidergen"@ {
            Some(AvailableShapes::GliderGen)
        } else {
            None
        }
    }

    /// Looks a pattern up by its name.
    pub fn from_name(name: &str) -> (kind: Option<AvailableShapes>)
        ensures
            kind == Self::named(name@),
    {
        if same_text(name, "box") {
            Some(AvailableShapes::Square)
        } else if same_text(name, "beehive") {
            Some(AvailableShapes::Beehive)
        } else if same_text(name, "loaf") {
            Some(AvailableShapes::Loaf)
        } else if same_text(name, "boat") {
            Some(AvailableShapes::Boat)
        } else if same_text(name, "tub") {
            Some(AvailableShapes::Tub)
        } else if same_text(name, "blinker") {
            Some(AvailableShapes::Blinker)
        } else if same_text(name, "toad") {
            Some(AvailableShapes::Toad)
        } else if same_text(name, "beacon") {
            Some(AvailableShapes::Beacon)
        } else if same_text(name, "pulsar") {
            Some(AvailableShapes::Pulsar)
        } else if same_text(name, "pentadeca") {
            Some(AvailableShapes::PentaDeca)
        } else if same_text(name, "glider") {
            Some(AvailableShapes::Glider)
        } else if same_text(name, "lwss") {
            Some(AvailableShapes::Lwss)
        } else if same_text(name, "mwss") {
            Some(AvailableShapes::Mwss)
        } else if same_text(name, "hwss") {
            Some(AvailableShapes::Hwss)
        } else if same_text(name, "glidergen") {
            Some(AvailableShapes::GliderGen)
        } else {
            None
        }
    }

    /// The cells of the pattern, row by row; a cell is alive where the
    /// entry is not zero.
    pub open spec fn rows(self) -> Seq<Seq<u32>> {
        match self {
            AvailableShapes::Square => seq![
                seq![1, 1],
                seq![1, 1],
            ],
            AvailableShapes::Beehive => seq![
                seq![0, 0, 1, 1, 0, 0],
                seq![0, 1, 0, 0, 1, 0],
                seq![0, 0, 1, 1, 0, 0],
            ],
            AvailableShapes::Loaf => seq![
                seq![0, 0, 1, 1, 0, 0],
                seq![0, 1, 0, 0, 1, 0],
                seq![0, 0, 1, 0, 1, 0],
                seq![0, 0, 0, 1, 0, 0],
            ],
            AvailableShapes::Boat => seq![
                seq![0, 1, 1, 0, 0],
                seq![0, 1, 0, 1, 0],
                seq![0, 0, 1, 0, 0],
            ],
            AvailableShapes::Tub => seq![
                seq![0, 0, 1, 0, 0],
                seq![0, 1, 0, 1, 0],
                seq![0, 0, 1, 0, 0],
            ],
            AvailableShapes::Blinker => seq![
                seq![1],
                seq![1],
                seq![1],
            ],
            AvailableShapes::Toad => seq![
                seq![0, 0, 1, 0],
                seq![1, 0, 0, 1],
                seq![1, 0, 0, 1],
                seq![0, 1, 0, 0],
            ],
            AvailableShapes::Beacon => seq![
                seq![1, 1, 0, 0],
                seq![1, 1, 0, 0],
                seq![0, 0, 1, 1],
                seq![0, 0, 1, 1],
            ],
            AvailableShapes::Pulsar => seq![
                seq![0, 0, 1, 1, 1, 0, 0, 0, 1, 1, 1, 0, 0],
                seq![0, 0, 0, 0, 0, 0, 0, 0, 0, 0, 0, 0, 0],
                seq![1, 0, 0, 0, 0, 1, 0, 1, 0, 0, 0, 0, 1],
                seq![1, 0, 0, 0, 0, 1, 0, 1, 0, 0, 0, 0, 1],
                seq![1, 0, 0, 0, 0, 1, 0, 1, 0, 0, 0, 0, 1],
                seq![0, 0, 1, 1, 1, 0, 0, 0, 1, 1, 1, 0, 0],
                seq![0, 0, 0, 0, 0, 0, 0, 0, 0, 0, 0, 0, 0],
                seq![0, 0, 1, 1, 1, 0, 0, 0, 1, 1, 1, 0, 0],
                seq![1, 0, 0, 0, 0, 1, 0, 1, 0, 0, 0, 0, 1],
                seq![1, 0, 0, 0, 0, 1, 0, 1, 0, 0, 0, 0, 1],
                seq![1, 0, 0, 0, 0, 1, 0, 1, 0, 0, 0, 0, 1],
                seq![0, 0, 0, 0, 0, 0, 0, 0, 0, 0, 0, 0, 0],
                seq![0, 0, 1, 1, 1, 0, 0, 0, 1, 1, 1, 0, 0],
            ],
            AvailableShapes::PentaDeca => seq![
                seq![0, 0, 0, 1, 1, 1, 0, 0, 0],
                seq![0, 0, 1, 0, 0, 0, 1, 0, 0],
                seq![0, 1, 0, 0, 0, 0, 0, 1, 0],
                seq![0, 0, 0, 0, 0, 0, 0, 0, 0],
                seq![1, 0, 0, 0, 0, 0, 0, 0, 1],
                seq![1, 0, 0, 0, 0, 0, 0, 0, 1],
                seq![0, 0, 0, 0, 0, 0, 0, 0, 0],
                seq![0, 1, 0, 0, 0, 0, 0, 1, 0],
                seq![0, 0, 1, 0, 0, 0, 1, 0, 0],
                seq![0, 0, 0, 1, 1, 1, 0, 0, 0],
            ],
            AvailableShapes::Glider => seq![
                seq![0, 0, 1],
                seq![1, 0, 1],
                seq![0, 1, 1],
            ],
            AvailableShapes::Lwss => seq![
                seq![0, 1, 1, 1, 1],
                seq![1, 0, 0, 0, 1],
                seq![0, 0, 0, 0, 1],
                seq![1, 0, 0, 1, 0],
            ],
            AvailableShapes::Mwss => seq![
                seq![0, 0, 1, 0, 0, 0],
                seq![1, 0, 0, 0, 1, 0],
                seq![0, 0, 0, 0, 0, 1],
                seq![1, 0, 0, 0, 0, 1],
                seq![0, 1, 1, 1, 1, 1],
            ],
            AvailableShapes::Hwss => seq![
                seq![0, 0, 1, 1, 0, 0, 0],
                seq![1, 0, 0, 0, 0, 1, 0],
                seq![0, 0, 0, 0, 0, 0, 1],
                seq![1, 0, 0, 0, 0, 0, 1],
                seq![0, 1, 1, 1, 1, 1, 1],
            ],
            AvailableShapes::GliderGen => seq![
                seq![0, 0, 0, 0, 0, 0, 0, 0, 0, 0, 0, 0, 0, 0, 0, 0, 0, 0, 0, 0, 0, 0, 0, 0, 1, 0, 0, 0, 0, 0, 0, 0, 0, 0, 0, 0],
                seq![0, 0, 0, 0, 0, 0, 0, 0, 0, 0, 0, 0, 0, 0, 0, 0, 0, 0, 0, 0, 0, 0, 1, 0, 1, 0, 0, 0, 0, 0, 0, 0, 0, 0, 0, 0],
                seq![0, 0, 0, 0, 0, 0, 0, 0, 0, 0, 0, 0, 1, 1, 0, 0, 0, 0, 0, 0, 1, 1, 0, 0, 0, 0, 0, 0, 0, 0, 0, 0, 0, 0, 1, 1],
                seq![0, 0, 0, 0, 0, 0, 0, 0, 0, 0, 0, 1, 0, 0, 0, 1, 0, 0, 0, 0, 1, 1, 0, 0, 0, 0, 0, 0, 0, 0, 0, 0, 0, 0, 1, 1],
                seq![1, 1, 0, 0, 0, 0, 0, 0, 0, 0, 1, 0, 0, 0, 0, 0, 1, 0, 0, 0, 1, 1, 0, 0, 0, 0, 0, 0, 0, 0, 0, 0, 0, 0, 0, 0],
                seq![1, 1, 0, 0, 0, 0, 0, 0, 0, 0, 1, 0, 0, 0, 1, 0, 1, 1, 0, 0, 0, 0, 1, 0, 1, 0, 0, 0, 0, 0, 0, 0, 0, 0, 0, 0],
                seq![0, 0, 0, 0, 0, 0, 0, 0, 0, 0, 1, 0, 0, 0, 0, 0, 1, 0, 0, 0, 0, 0, 0, 0, 1, 0, 0, 0, 0, 0, 0, 0, 0, 0, 0, 0],
                seq![0, 0, 0, 0, 0, 0, 0, 0, 0, 0, 0, 1, 0, 0, 0, 1, 0, 0, 0, 0, 0, 0, 0, 0, 0, 0, 0, 0, 0, 0, 0, 0, 0, 0, 0, 0],
                seq![0, 0, 0, 0, 0, 0, 0, 0, 0, 0, 0, 0, 1, 1, 0, 0, 0, 0, 0, 0, 0, 0, 0, 0, 0, 0, 0, 0, 0, 0, 0, 0, 0, 0, 1, 1],
            ],
        }
    }

    /// The pattern as a board of its own.
    pub open spec fn pattern(self) -> Grid {
        flatten(self.rows())
    }
}

impl Grid {
    /// Whether the pattern called `name` may be drawn at (`row`, `col`). A
    /// name that the catalog does not know asks nothing of the board.
    pub open spec fn may_draw(self, row: int, col: int, name: Seq<char>) -> bool {
        match AvailableShapes::named(name) {
            Some(kind) => self.admits(self.index(row, col), kind.pattern()),
            None => true,
        }
    }

    /// The board after the pattern called `name` has been stamped with its
    /// top left cell at (`row`, `col`). A name that the catalog does not
    /// know leaves the board as it is.
    pub open spec fn drawn(self, row: int, col: int, name: Seq<char>) -> Grid {
        match AvailableShapes::named(name) {
            Some(kind) => self.stamp(self.index(row, col), kind.pattern()),
            None => self,
        }
    }
}

/// The cells that a matrix of `height` rows of `width` entries describes, row
/// by row: a cell is alive where the entry is not zero.
pub open spec fn matrix_cells(rows: Seq<Seq<u32>>, width: nat, height: nat) -> Seq<bool> {
    Seq::new(width * height, |i: int| rows[i / (width as int)][i % (width as int)] != 0)
}

/// The board that a matrix of rows describes. Its width is the length of
/// the first row.
pub open spec fn flatten(rows: Seq<Seq<u32>>) -> Grid {
    let width = rows[0].len();
    let height = rows.len();
    Grid { width, height, cells: matrix_cells(rows, width, height) }
}

/// Every pattern of the catalog is a rectangle: it has between 1 and 13
/// rows, and each row has as many entries as the first, between 1 and 36.
pub proof fn lemma_rows_rectangular(kind: AvailableShapes)
    ensures
        0 < kind.rows().len() <= 13,
        0 < kind.rows()[0].len() <= 36,
        forall|r: int| 0 <= r < kind.rows().len() ==> (#[trigger] kind.rows()[r]).len() == kind.rows()[0].len(),
{
}

/// The pattern of the catalog holds one cell for each entry of its rows,
/// alive where the entry is not zero.
pub proof fn lemma_pattern_cell(kind: AvailableShapes, row: int, col: int)
    requires
        0 <= row < kind.rows().len(),
        0 <= col < kind.rows()[0].len(),
    ensures
        kind.pattern().wf(),
        kind.pattern().contains(row, col),
        kind.pattern().alive(row, col) == (kind.rows()[row][col] != 0),
{
    lemma_index(kind.pattern(), row, col);
}

/// Where a board `width` cells wide stores the cell at (`row`, `col`).
fn get_index(row: usize, col: usize, width: usize) -> (index: usize)
    requires
        row * width + col <= usize::MAX,
    ensures
        index == row * width + col,
{
    (row * width) + col
}

/// Writes a matrix of `height` rows of `width` entries into `cells`, row by
/// row.
fn set_cells(height: usize, width: usize, shape: Vec<Vec<u32>>, cells: &mut FixedBitSet)
    requires
        shape@.len() == height,
        forall|r: int| 0 <= r < height ==> (#[trigger] shape@[r])@.len() == width,
        bits(*old(cells)).len() == width * height,
        width * height <= usize::MAX,
    ensures
        bits(*final(cells)) == matrix_cells(shape.deep_view(), width as nat, height as nat),
{
    assert(0 * width == 0);
    for row in 0..height
        invariant
            shape@.len() == height,
            forall|r: int| 0 <= r < height ==> (#[trigger] shape@[r])@.len() == width,
            bits(*cells).len() == width * height,
            width * height <= usize::MAX,
            forall|i: int|
                0 <= i < row * width ==> bits(*cells)[i] == (shape@[i / (width as int)]@[i % (
                width as int)] != 0),
    {
        for col in 0..width
            invariant
                row < height,
                shape@.len() == height,
                forall|r: int| 0 <= r < height ==> (#[trigger] shape@[r])@.len() == width,
                bits(*cells).len() == width * height,
                width * height <= usize::MAX,
                forall|i: int|
                    0 <= i < row * width + col ==> bits(*cells)[i] == (shape@[i / (
                    width as int)]@[i % (width as int)] != 0),
        {
            proof {
                assert(row * width + width <= width * height) by (nonlinear_arith)
                    requires
                        row < height,
                ;
                lemma_fundamental_div_mod_converse(
                    row * width + col,
                    width as int,
                    row as int,
                    col as int,
                );
            }
            let index: usize = get_index(row, col, width);
            cells.set(index, shape[row][col] != 0);
        }
        assert(row * width + width == (row + 1) * width) by (nonlinear_arith);
    }
    proof {
        assert(height * width == width * height) by (nonlinear_arith);
        let rows = shape.deep_view();
        assert forall|i: int| 0 <= i < width * height implies bits(*cells)[i] == (rows[i / (
        width as int)][i % (width as int)] != 0) by {
            assert(0 < width && 0 <= i / (width as int) < height) by (nonlinear_arith)
                requires
                    0 <= i < width * height,
            ;
            assert(rows[i / (width as int)] == shape@[i / (width as int)]@);
        }
        assert(bits(*cells) =~= matrix_cells(rows, width as nat, height as nat));
    }
}

/// A pattern of the catalog, ready to be stamped.
pub struct Shape {
    width: u32,
    height: u32,
    cells: FixedBitSet,
}

impl View for Shape {
    type V = Grid;

    closed spec fn view(&self) -> Grid {
        Grid { width: self.width as nat, height: self.height as nat, cells: bits(self.cells) }
    }
}

impl Shape {
    /// Builds a pattern of the catalog.
    pub fn new(shape_name: AvailableShapes) -> (shape: Shape)
        ensures
            shape@ == shape_name.pattern(),
    {
        let width: usize;
        let height: usize;
        let mut cells: FixedBitSet;
        let shape: Vec<Vec<u32>>;
        shape = match shape_name {
            AvailableShapes::Square => vec![
                vec![1, 1],
                vec![1, 1],
            ],
            AvailableShapes::Beehive => vec![
                vec![0, 0, 1, 1, 0, 0],
                vec![0, 1, 0, 0, 1, 0],
                vec![0, 0, 1, 1, 0, 0],
            ],
            AvailableShapes::Loaf => vec![
                vec![0, 0, 1, 1, 0, 0],
                vec![0, 1, 0, 0, 1, 0],
                vec![0, 0, 1, 0, 1, 0],
                vec![0, 0, 0, 1, 0, 0],
            ],
            AvailableShapes::Boat => vec![
                vec![0, 1, 1, 0, 0],
                vec![0, 1, 0, 1, 0],
                vec![0, 0, 1, 0, 0],
            ],
            AvailableShapes::Tub => vec![
                vec![0, 0, 1, 0, 0],
                vec![0, 1, 0, 1, 0],
                vec![0, 0, 1, 0, 0],
            ],
            AvailableShapes::Blinker => vec![
                vec![1],
                vec![1],
                vec![1],
            ],
            AvailableShapes::Toad => vec![
                vec![0, 0, 1, 0],
                vec![1, 0, 0, 1],
                vec![1, 0, 0, 1],
                vec![0, 1, 0, 0],
            ],
            AvailableShapes::Beacon => vec![
                vec![1, 1, 0, 0],
                vec![1, 1, 0, 0],
                vec![0, 0, 1, 1],
                vec![0, 0, 1, 1],
            ],
            AvailableShapes::Pulsar => vec![
                vec![0, 0, 1, 1, 1, 0, 0, 0, 1, 1, 1, 0, 0],
                vec![0, 0, 0, 0, 0, 0, 0, 0, 0, 0, 0, 0, 0],
                vec![1, 0, 0, 0, 0, 1, 0, 1, 0, 0, 0, 0, 1],
                vec![1, 0, 0, 0, 0, 1, 0, 1, 0, 0, 0, 0, 1],
                vec![1, 0, 0, 0, 0, 1, 0, 1, 0, 0, 0, 0, 1],
                vec![0, 0, 1, 1, 1, 0, 0, 0, 1, 1, 1, 0, 0],
                vec![0, 0, 0, 0, 0, 0, 0, 0, 0, 0, 0, 0, 0],
                vec![0, 0, 1, 1, 1, 0, 0, 0, 1, 1, 1, 0, 0],
                vec![1, 0, 0, 0, 0, 1, 0, 1, 0, 0, 0, 0, 1],
                vec![1, 0, 0, 0, 0, 1, 0, 1, 0, 0, 0, 0, 1],
                vec![1, 0, 0, 0, 0, 1, 0, 1, 0, 0, 0, 0, 1],
                vec![0, 0, 0, 0, 0, 0, 0, 0, 0, 0, 0, 0, 0],
                vec![0, 0, 1, 1, 1, 0, 0, 0, 1, 1, 1, 0, 0],
            ],
            AvailableShapes::PentaDeca => vec![
                vec![0, 0, 0, 1, 1, 1, 0, 0, 0],
                vec![0, 0, 1, 0, 0, 0, 1, 0, 0],
                vec![0, 1, 0, 0, 0, 0, 0, 1, 0],
                vec![0, 0, 0, 0, 0, 0, 0, 0, 0],
                vec![1, 0, 0, 0, 0, 0, 0, 0, 1],
                vec![1, 0, 0, 0, 0, 0, 0, 0, 1],
                vec![0, 0, 0, 0, 0, 0, 0, 0, 0],
                vec![0, 1, 0, 0, 0, 0, 0, 1, 0],
                vec![0, 0, 1, 0, 0, 0, 1, 0, 0],
                vec![0, 0, 0, 1, 1, 1, 0, 0, 0],
            ],
            AvailableShapes::Glider => vec![
                vec![0, 0, 1],
                vec![1, 0, 1],
                vec![0, 1, 1],
            ],
            AvailableShapes::Lwss => vec![
                vec![0, 1, 1, 1, 1],
                vec![1, 0, 0, 0, 1],
                vec![0, 0, 0, 0, 1],
                vec![1, 0, 0, 1, 0],
            ],
            AvailableShapes::Mwss => vec![
                vec![0, 0, 1, 0, 0, 0],
                vec![1, 0, 0, 0, 1, 0],
                vec![0, 0, 0, 0, 0, 1],
                vec![1, 0, 0, 0, 0, 1],
                vec![0, 1, 1, 1, 1, 1],
            ],
            AvailableShapes::Hwss => vec![
                vec![0, 0, 1, 1, 0, 0, 0],
                vec![1, 0, 0, 0, 0, 1, 0],
                vec![0, 0, 0, 0, 0, 0, 1],
                vec![1, 0, 0, 0, 0, 0, 1],
                vec![0, 1, 1, 1, 1, 1, 1],
            ],
            AvailableShapes::GliderGen => vec![
                vec![0, 0, 0, 0, 0, 0, 0, 0, 0, 0, 0, 0, 0, 0, 0, 0, 0, 0, 0, 0, 0, 0, 0, 0, 1, 0, 0, 0, 0, 0, 0, 0, 0, 0, 0, 0],
                vec![0, 0, 0, 0, 0, 0, 0, 0, 0, 0, 0, 0, 0, 0, 0, 0, 0, 0, 0, 0, 0, 0, 1, 0, 1, 0, 0, 0, 0, 0, 0, 0, 0, 0, 0, 0],
                vec![0, 0, 0, 0, 0, 0, 0, 0, 0, 0, 0, 0, 1, 1, 0, 0, 0, 0, 0, 0, 1, 1, 0, 0, 0, 0, 0, 0, 0, 0, 0, 0, 0, 0, 1, 1],
                vec![0, 0, 0, 0, 0, 0, 0, 0, 0, 0, 0, 1, 0, 0, 0, 1, 0, 0, 0, 0, 1, 1, 0, 0, 0, 0, 0, 0, 0, 0, 0, 0, 0, 0, 1, 1],
                vec![1, 1, 0, 0, 0, 0, 0, 0, 0, 0, 1, 0, 0, 0, 0, 0, 1, 0, 0, 0, 1, 1, 0, 0, 0, 0, 0, 0, 0, 0, 0, 0, 0, 0, 0, 0],
                vec![1, 1, 0, 0, 0, 0, 0, 0, 0, 0, 1, 0, 0, 0, 1, 0, 1, 1, 0, 0, 0, 0, 1, 0, 1, 0, 0, 0, 0, 0, 0, 0, 0, 0, 0, 0],
                vec![0, 0, 0, 0, 0, 0, 0, 0, 0, 0, 1, 0, 0, 0, 0, 0, 1, 0, 0, 0, 0, 0, 0, 0, 1, 0, 0, 0, 0, 0, 0, 0, 0, 0, 0, 0],
                vec![0, 0, 0, 0, 0, 0, 0, 0, 0, 0, 0, 1, 0, 0, 0, 1, 0, 0, 0, 0, 0, 0, 0, 0, 0, 0, 0, 0, 0, 0, 0, 0, 0, 0, 0, 0],
                vec![0, 0, 0, 0, 0, 0, 0, 0, 0, 0, 0, 0, 1, 1, 0, 0, 0, 0, 0, 0, 0, 0, 0, 0, 0, 0, 0, 0, 0, 0, 0, 0, 0, 0, 1, 1],
            ],
        };
        proof {
            assert(shape.deep_view() =~~= shape_name.rows());
            lemma_rows_rectangular(shape_name);
        }
        width = shape[0].len();
        height = shape.len();
        assert(width * height <= 36 * 13) by (nonlinear_arith)
            requires
                width <= 36,
                height <= 13,
        ;
        let size: usize = width * height;
        cells = FixedBitSet::with_capacity(size);
        set_cells(height, width, shape, &mut cells);
        Shape { width: width as u32, height: height as u32, cells }
    }

    /// The number of columns.
    pub fn width(&self) -> (width: u32)
        ensures
            width == self@.width,
    {
        self.width
    }

    /// The number of rows.
    pub fn height(&self) -> (height: u32)
        ensures
            height == self@.height,
    {
        self.height
    }

    /// The cells, row by row.
    pub fn get_cells(&self) -> (cells: &FixedBitSet)
        ensures
            bits(*cells) == self@.cells,
    {
        &self.cells
    }
}

} // verus!
