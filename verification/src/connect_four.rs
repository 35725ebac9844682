//! Connect-four: a board of columns into which pieces drop, and the check for
//! four pieces of one color in a row through a given cell.
use vstd::prelude::*;

verus! {

/// The color of a piece.
#[derive(Clone, Copy, PartialEq, Eq, Structural, PartialOrd, Ord, Debug)]
pub enum Color {
    Red,
    Blue,
}

impl Color {
    /// The other color.
    pub open spec fn opposite(self) -> Color {
        match self {
            Color::Red => Color::Blue,
            Color::Blue => Color::Red,
        }
    }

    /// Swaps red and blue.
    pub fn not(self) -> (res: Color)
        ensures
            res == self.opposite(),
    {
        match self {
            Color::Red => Color::Blue,
            Color::Blue => Color::Red,
        }
    }

    /// The one-letter text of the color.
    pub open spec fn text(self) -> Seq<char> {
        match self {
            Color::Red => seq!['R'],
            Color::Blue => seq!['B'],
        }
    }

    /// Writes the color as `R` or `B`.
    pub fn to_string(&self) -> (res: String)
        ensures
            res@ == self.text(),
    {
        proof {
            reveal_strlit("R");
            reveal_strlit("B");
        }
        match self {
            Color::Red => String::from_str("R"),
            Color::Blue => String::from_str("B"),
        }
    }
}

/// Applying the swap twice gives the color back, and the swap never keeps a color.
pub proof fn lemma_not_involution(c: Color)
    ensures
        c.opposite().opposite() == c,
        c.opposite() != c,
{
}

/// One cell of the board, empty or holding a piece.
#[derive(Clone, Copy, PartialEq, Eq, Structural, Debug)]
pub struct Cell {
    pub piece: Option<Color>,
}

impl Cell {
    /// The one-letter text of the cell: the piece's color, or `.` when empty.
    pub open spec fn text(self) -> Seq<char> {
        match self.piece {
            Some(c) => c.text(),
            None => seq!['.'],
        }
    }

    /// Writes the cell as its piece's letter, or `.` when it is empty.
    pub fn to_string(&self) -> (res: String)
        ensures
            res@ == self.text(),
    {
        proof {
            reveal_strlit(".");
        }
        match &self.piece {
            Some(color) => color.to_string(),
            None => String::from_str("."),
        }
    }
}

/// What a move did.
#[derive(Clone, Copy, PartialEq, Eq, Structural, Debug)]
pub enum PlayResult {
    /// The column has no empty cell left.
    ColumnFull,
    /// There is no such column.
    OutOfBounds,
    /// The piece landed in `row`; `winner` is the color that now has four in a
    /// row through that cell, if any.
    Played { row: usize, winner: Option<Color> },
}

/// The eight directions, as (column step, row step), in the order they are tried.
pub open spec fn directions() -> Seq<(int, int)> {
    seq![(1, 0), (0, 1), (-1, 0), (0, -1), (1, 1), (1, -1), (-1, 1), (-1, -1)]
}

/// The board: `grid[column][row]`, row 0 at the bottom.
pub struct Board {
    pub grid: Vec<Vec<Cell>>,
}

impl Board {
    /// Number of columns.
    pub open spec fn width(&self) -> nat {
        self.grid@.len()
    }

    /// Number of rows, read off the first column.
    pub open spec fn height(&self) -> nat {
        if self.grid@.len() == 0 {
            0
        } else {
            self.grid@[0]@.len()
        }
    }

    /// Every column has the same number of rows.
    pub open spec fn wf(&self) -> bool {
        forall|c: int| 0 <= c < self.grid@.len() ==> #[trigger] self.grid@[c]@.len() == self.height()
    }

    /// The piece at a column and row.
    pub open spec fn piece_at(&self, col: int, row: int) -> Option<Color> {
        self.grid@[col]@[row].piece
    }

    pub open spec fn in_bounds(&self, col: int, row: int) -> bool {
        0 <= col < self.width() && 0 <= row < self.height()
    }

    /// No empty cell lies below a piece in any column.
    pub open spec fn stacked(&self) -> bool {
        forall|c: int, r1: int, r2: int|
            0 <= c < self.width() && 0 <= r1 < r2 < self.height() && #[trigger] self.piece_at(c, r2)
                is Some ==> #[trigger] self.piece_at(c, r1) is Some
    }

    /// The four cells from `index` on in direction `dir` lie on the board and hold `color`.
    pub open spec fn line_of_four(&self, index: (int, int), dir: (int, int), color: Color) -> bool {
        forall|i: int|
            0 <= i < 4 ==> {
                &&& #[trigger] self.in_bounds(index.0 + i * dir.0, index.1 + i * dir.1)
                &&& self.piece_at(index.0 + i * dir.0, index.1 + i * dir.1) == Some(color)
            }
    }

    /// The winner through a cell: its piece's color when four of that color run
    /// from it in one of the eight directions.
    pub open spec fn winner_at(&self, index: (int, int)) -> Option<Color> {
        match self.piece_at(index.0, index.1) {
            Some(c) => if exists|k: int| 0 <= k < 8 && #[trigger] self.line_of_four(index, directions()[k], c) {
                Some(c)
            } else {
                None
            },
            None => None,
        }
    }

    /// The lowest empty row of a column, if it has one.
    pub open spec fn first_empty(&self, col: int, row: int) -> bool {
        &&& 0 <= row < self.height()
        &&& self.piece_at(col, row) is None
        &&& forall|r: int| 0 <= r < row ==> (#[trigger] self.piece_at(col, r)) is Some
    }

    /// The text of one row: each cell's letter followed by a space, for the
    /// first `n` columns.
    pub open spec fn cells_text(&self, row: int, n: int) -> Seq<char>
        decreases n,
    {
        if n <= 0 {
            Seq::empty()
        } else {
            self.cells_text(row, n - 1) + self.grid@[n - 1]@[row].text() + seq![' ']
        }
    }

    /// The first `k` lines of the picture, counted from the top row down.
    pub open spec fn lines(&self, k: int) -> Seq<char>
        decreases k,
    {
        if k <= 0 {
            Seq::empty()
        } else {
            self.lines(k - 1) + self.cells_text(self.height() - k, self.width() as int) + seq!['\n']
        }
    }

    /// The board drawn as text, top row first, one line per row.
    pub fn display(&self) -> (res: String)
        requires
            self.wf(),
            self.width() > 0,
        ensures
            res@ == self.lines(self.height() as int),
    {
        let height = self.grid[0].len();
        let width = self.grid.len();
        let mut out = String::new();
        let mut k: usize = 0;
        while k < height
            invariant
                self.wf(),
                height == self.height(),
                width == self.width(),
                k <= height,
                out@ == self.lines(k as int),
            decreases height - k,
        {
            let row = height - 1 - k;
            let mut line = String::new();
            let mut col: usize = 0;
            while col < width
                invariant
                    self.wf(),
                    height == self.height(),
                    width == self.width(),
                    row < height,
                    col <= width,
                    line@ == self.cells_text(row as int, col as int),
                decreases width - col,
            {
                proof {
                    reveal_strlit(" ");
                }
                let text = self.grid[col][row].to_string();
                line.append(text.as_str());
                line.append(" ");
                assert(self.cells_text(row as int, col as int + 1) == self.cells_text(row as int, col as int)
                    + self.grid@[col as int]@[row as int].text() + seq![' ']);
                col = col + 1;
            }
            proof {
                reveal_strlit("\n");
            }
            out.append(line.as_str());
            out.append("\n");
            assert(self.lines(k as int + 1) == self.lines(k as int) + self.cells_text(row as int, width as int)
                + seq!['\n']);
            k = k + 1;
        }
        out
    }

    /// A board of `width` columns of `height` empty cells.
    pub fn new(width: usize, height: usize) -> (res: Board)
        ensures
            res.wf(),
            res.width() == width,
            width > 0 ==> res.height() == height,
            forall|c: int, r: int| res.in_bounds(c, r) ==> res.piece_at(c, r) is None,
            res.stacked(),
    {
        let mut grid: Vec<Vec<Cell>> = Vec::new();
        let mut i: usize = 0;
        while i < width
            invariant
                i <= width,
                grid@.len() == i,
                forall|c: int| 0 <= c < i ==> #[trigger] grid@[c]@.len() == height,
                forall|c: int, r: int|
                    0 <= c < i && 0 <= r < height ==> (#[trigger] grid@[c]@[r]).piece is None,
            decreases width - i,
        {
            let mut column: Vec<Cell> = Vec::new();
            let mut j: usize = 0;
            while j < height
                invariant
                    j <= height,
                    column@.len() == j,
                    forall|r: int| 0 <= r < j ==> (#[trigger] column@[r]).piece is None,
                decreases height - j,
            {
                column.push(Cell::default());
                j = j + 1;
            }
            grid.push(column);
            i = i + 1;
        }
        Board { grid }
    }

    /// Whether the four cells from `index` in direction `direction` all hold `color`.
    pub fn check_direction(&self, index: (usize, usize), direction: (isize, isize), color: &Color) -> (res: bool)
        requires
            self.wf(),
        ensures
            res == self.line_of_four((index.0 as int, index.1 as int), (direction.0 as int, direction.1 as int), *color),
    {
        let ghost idx = (index.0 as int, index.1 as int);
        let ghost dir = (direction.0 as int, direction.1 as int);
        let mut i: i128 = 0;
        while i < 4
            invariant
                0 <= i <= 4,
                self.wf(),
                idx == (index.0 as int, index.1 as int),
                dir == (direction.0 as int, direction.1 as int),
                forall|k: int|
                    0 <= k < i ==> {
                        &&& #[trigger] self.in_bounds(idx.0 + k * dir.0, idx.1 + k * dir.1)
                        &&& self.piece_at(idx.0 + k * dir.0, idx.1 + k * dir.1) == Some(*color)
                    },
            decreases 4 - i,
        {
            assert(-3 * 0x8000_0000_0000_0000 <= i * (direction.0 as i128) <= 3 * 0x8000_0000_0000_0000)
                by (nonlinear_arith)
                requires
                    0 <= i < 4,
                    -0x8000_0000_0000_0000 <= direction.0 < 0x8000_0000_0000_0000,
            ;
            assert(-3 * 0x8000_0000_0000_0000 <= i * (direction.1 as i128) <= 3 * 0x8000_0000_0000_0000)
                by (nonlinear_arith)
                requires
                    0 <= i < 4,
                    -0x8000_0000_0000_0000 <= direction.1 < 0x8000_0000_0000_0000,
            ;
            let ny: i128 = index.0 as i128 + i * (direction.0 as i128);
            let nx: i128 = index.1 as i128 + i * (direction.1 as i128);
            if ny < 0 || nx < 0 || ny >= self.grid.len() as i128 || nx >= self.grid[0].len() as i128 {
                assert(ny == idx.0 + i * dir.0 && nx == idx.1 + i * dir.1);
                assert(!self.in_bounds(idx.0 + i * dir.0, idx.1 + i * dir.1));
                assert(!self.line_of_four(idx, dir, *color));
                return false;
            }
            let col = ny as usize;
            let row = nx as usize;
            let same = match self.grid[col][row].piece {
                Some(c) => c == *color,
                None => false,
            };
            if !same {
                assert(ny == idx.0 + i * dir.0 && nx == idx.1 + i * dir.1);
                assert(self.in_bounds(idx.0 + i * dir.0, idx.1 + i * dir.1));
                assert(self.piece_at(idx.0 + i * dir.0, idx.1 + i * dir.1) != Some(*color));
                assert(!self.line_of_four(idx, dir, *color));
                return false;
            }
            assert(ny == idx.0 + i * dir.0 && nx == idx.1 + i * dir.1);
            assert(self.in_bounds(idx.0 + i * dir.0, idx.1 + i * dir.1));
            assert(self.piece_at(idx.0 + i * dir.0, idx.1 + i * dir.1) == Some(*color));
            i = i + 1;
        }
        true
    }

    /// The color that has four in a row through the cell at `index`, if any.
    pub fn check_four_in_a_row(&self, index: (usize, usize)) -> (res: Option<Color>)
        requires
            self.wf(),
            self.in_bounds(index.0 as int, index.1 as int),
        ensures
            res == self.winner_at((index.0 as int, index.1 as int)),
    {
        let dirs: [(isize, isize); 8] = [
            (1, 0),
            (0, 1),
            (-1, 0),
            (0, -1),
            (1, 1),
            (1, -1),
            (-1, 1),
            (-1, -1),
        ];
        let ghost idx = (index.0 as int, index.1 as int);
        assert forall|k: int| 0 <= k < 8 implies (dirs@[k].0 as int, dirs@[k].1 as int)
            == #[trigger] directions()[k] by {}
        let piece = self.grid[index.0][index.1].piece;
        assert(piece == self.piece_at(idx.0, idx.1));
        match piece {
            Some(color) => {
                let mut k: usize = 0;
                while k < 8
                    invariant
                        0 <= k <= 8,
                        self.wf(),
                        idx == (index.0 as int, index.1 as int),
                        self.piece_at(idx.0, idx.1) == Some(color),
                        forall|j: int| 0 <= j < 8 ==> (dirs@[j].0 as int, dirs@[j].1 as int)
                            == #[trigger] directions()[j],
                        forall|j: int| 0 <= j < k ==> !(#[trigger] self.line_of_four(idx, directions()[j], color)),
                    decreases 8 - k,
                {
                    if self.check_direction(index, dirs[k], &color) {
                        assert(self.line_of_four(idx, directions()[k as int], color));
                        assert(self.piece_at(idx.0, idx.1) == Some(color));
                        assert(self.winner_at(idx) == Some(color));
                        return Some(color);
                    }
                    k = k + 1;
                }
                None
            },
            None => None,
        }
    }

    /// Drops a piece of `color` into column `y`.
    pub fn play(&mut self, y: usize, color: Color) -> (res: PlayResult)
        requires
            old(self).wf(),
        ensures
            final(self).wf(),
            final(self).width() == old(self).width(),
            final(self).height() == old(self).height(),
            old(self).stacked() ==> final(self).stacked(),
            y >= old(self).width() ==> res == PlayResult::OutOfBounds && *final(self) == *old(self),
            y < old(self).width() && (forall|r: int| 0 <= r < old(self).height() ==> (#[trigger] old(self).piece_at(y as int, r)) is Some)
                ==> res == PlayResult::ColumnFull && final(self).grid@ == old(self).grid@,
            y < old(self).width() && (exists|r: int| 0 <= r < old(self).height() && (#[trigger] old(self).piece_at(y as int, r)) is None)
                ==> res is Played,
            match res {
                PlayResult::Played { row, winner } => {
                    &&& y < old(self).width()
                    &&& old(self).first_empty(y as int, row as int)
                    &&& final(self).piece_at(y as int, row as int) == Some(color)
                    &&& forall|c: int, r: int| old(self).in_bounds(c, r) && (c, r) != (y as int, row as int)
                        ==> #[trigger] final(self).piece_at(c, r) == old(self).piece_at(c, r)
                    &&& winner == final(self).winner_at((y as int, row as int))
                },
                _ => final(self).grid@ == old(self).grid@,
            },
    {
        if y >= self.grid.len() {
            return PlayResult::OutOfBounds;
        }
        let height = self.grid[y].len();
        let mut x: usize = 0;
        while x < height && self.grid[y][x].piece.is_some()
            invariant
                x <= height,
                y < self.grid@.len(),
                height == self.grid@[y as int]@.len(),
                forall|r: int| 0 <= r < x ==> (#[trigger] self.piece_at(y as int, r)) is Some,
            decreases height - x,
        {
            x = x + 1;
        }
        if x == height {
            return PlayResult::ColumnFull;
        }
        assert(old(self).piece_at(y as int, x as int) is None);
        let ghost before = *self;
        let mut column: Vec<Cell> = Vec::new();
        std::mem::swap(&mut column, &mut self.grid[y]);
        column.set(x, Cell { piece: Some(color) });
        self.grid.set(y, column);
        assert(forall|c: int| 0 <= c < self.grid@.len() && c != y ==> self.grid@[c] == before.grid@[c]);
        assert(self.height() == before.height()) by {
            if y == 0 {
                assert(self.grid@[0]@.len() == before.grid@[0]@.len());
            }
        }
        proof {
            if before.stacked() {
                assert forall|c: int, r1: int, r2: int|
                    0 <= c < self.width() && 0 <= r1 < r2 < self.height() && #[trigger] self.piece_at(c, r2)
                        is Some implies #[trigger] self.piece_at(c, r1) is Some by {
                    if c == y as int && r1 == x as int {
                    } else if c == y as int && r2 == x as int {
                        assert(before.piece_at(c, r1) is Some);
                    } else {
                        assert(before.piece_at(c, r2) is Some);
                        assert(before.piece_at(c, r1) is Some);
                    }
                }
            }
        }
        let winner = self.check_four_in_a_row((y, x));
        PlayResult::Played { row: x, winner }
    }
}

/// A move can only win for the one who made it: the winner through a cell
/// is the color of the piece in it, if anyone.
pub proof fn lemma_winner_is_mover(board: Board, col: int, row: int, color: Color)
    requires
        board.piece_at(col, row) == Some(color),
    ensures
        board.winner_at((col, row)) is None || board.winner_at((col, row)) == Some(color),
{
}

/// One step to a neighbouring cell: each coordinate moves by at most one,
/// and not both stay.
pub open spec fn unit_step(dx: int, dy: int) -> bool {
    -1 <= dx <= 1 && -1 <= dy <= 1 && (dx != 0 || dy != 0)
}

/// The piece at (`col`, `row`) and the three cells beyond it, one step of
/// (`dx`, `dy`) at a time, all lie on the board and hold `color`.
pub open spec fn four_from(board: Board, col: int, row: int, dx: int, dy: int, color: Color) -> bool {
    forall|i: int|
        0 <= i < 4 ==> #[trigger] board.in_bounds(col + i * dx, row + i * dy) && board.piece_at(col + i * dx, row + i * dy)
            == Some(color)
}

/// Four in a row counts in every one of the eight directions: where the
/// piece at a cell and the three beyond it in any direction, sideways, up,
/// down or diagonal, all lie on the board and are of one color, that color
/// wins through the cell; and a winner through a cell always has such four.
pub proof fn lemma_four_in_any_direction_wins(board: Board, col: int, row: int, dx: int, dy: int, color: Color)
    requires
        unit_step(dx, dy),
        four_from(board, col, row, dx, dy, color),
    ensures
        board.winner_at((col, row)) == Some(color),
{
    assert(board.in_bounds(col + 0 * dx, row + 0 * dy));
    assert(board.piece_at(col, row) == Some(color));
    let k: int = if dx == 1 && dy == 0 {
        0
    } else if dx == 0 && dy == 1 {
        1
    } else if dx == -1 && dy == 0 {
        2
    } else if dx == 0 && dy == -1 {
        3
    } else if dx == 1 && dy == 1 {
        4
    } else if dx == 1 && dy == -1 {
        5
    } else if dx == -1 && dy == 1 {
        6
    } else {
        7
    };
    assert(directions()[k] == (dx, dy));
    assert(board.line_of_four((col, row), directions()[k], color));
}

/// A winner through a cell has four pieces of its color in a row from that
/// cell, in one of the eight directions.
pub proof fn lemma_winner_has_four(board: Board, col: int, row: int, color: Color)
    requires
        board.winner_at((col, row)) == Some(color),
    ensures
        exists|dx: int, dy: int| unit_step(dx, dy) && #[trigger] four_from(board, col, row, dx, dy, color),
{
    let k = choose|k: int| 0 <= k < 8 && #[trigger] board.line_of_four((col, row), directions()[k], color);
    let d = directions()[k];
    assert(unit_step(d.0, d.1));
    assert(four_from(board, col, row, d.0, d.1, color));
}

impl Default for Cell {
    /// An empty cell.
    fn default() -> (res: Cell)
        ensures
            res.piece is None,
    {
        Cell { piece: None }
    }
}

} // verus!
