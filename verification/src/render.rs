//! Drawing a board as text for a terminal.
//!
//! The picture starts with a line of column numbers; each row of the grid
//! follows as a line that begins with the row's number. A hit and a miss
//! always show. Ships show only on a board that is drawn openly: on a
//! board drawn with its ships hidden, a ship square and open water look the
//! same.

use vstd::prelude::*;
use vstd::string::*;
use crate::board::{Board, BoardView};
use crate::cell::{CellState, BOARD_SIZE};

verus! {

/// What is drawn for one square.
#[derive(Clone, Copy, Debug, PartialEq, Eq, Structural)]
pub enum Glyph {
    /// Nothing: a square of a hidden board that has not been fired on.
    Blank,
    /// Open water.
    Water,
    /// A ship square that has not been hit.
    Ship,
    /// A ship square that has been hit.
    Hit,
    /// A shot that fell into the water.
    Miss,
}

impl Glyph {
    /// The glyph for a square in the given state. With `hide_ships`, open
    /// water and intact ship squares are both drawn blank.
    pub open spec fn of(state: CellState, hide_ships: bool) -> Glyph {
        match state {
            CellState::Empty => if hide_ships { Glyph::Blank } else { Glyph::Water },
            CellState::Ship => if hide_ships { Glyph::Blank } else { Glyph::Ship },
            CellState::Hit => Glyph::Hit,
            CellState::Miss => Glyph::Miss,
        }
    }

    /// The text of a glyph: three columns wide on the terminal, a hit in red
    /// and a miss in cyan.
    pub open spec fn text(self) -> Seq<char> {
        match self {
            Glyph::Blank => "   "@,
            Glyph::Water => " \u{25A1} "@,
            Glyph::Ship => " \u{25A0} "@,
            Glyph::Hit => "\x1b[31m \u{25CF} \x1b[0m"@,
            Glyph::Miss => "\x1b[36m \u{00B7} \x1b[0m"@,
        }
    }

    /// The five glyphs have five different texts, so a hit, a miss and,
    /// on an open board, a ship can each be told from everything else.
    pub proof fn lemma_texts_differ(a: Glyph, b: Glyph)
        requires
            a != b,
        ensures
            a.text() != b.text(),
    {
        reveal_strlit("   ");
        reveal_strlit(" \u{25A1} ");
        reveal_strlit(" \u{25A0} ");
        reveal_strlit("\x1b[31m \u{25CF} \x1b[0m");
        reveal_strlit("\x1b[36m \u{00B7} \x1b[0m");
        if a.text().len() == b.text().len() {
            if a.text().len() == 3 {
                assert(a.text()[1] != b.text()[1]);
            } else {
                assert(a.text()[3] != b.text()[3]);
            }
        }
    }

    /// A hit is always drawn as a hit and a miss as a miss, whether ships
    /// are hidden or not; a ship is drawn only when ships are not hidden,
    /// and then only for an intact ship square.
    pub proof fn lemma_what_shows(state: CellState, hide_ships: bool)
        ensures
            Glyph::of(state, hide_ships) == Glyph::Hit <==> state == CellState::Hit,
            Glyph::of(state, hide_ships) == Glyph::Miss <==> state == CellState::Miss,
            Glyph::of(state, hide_ships) == Glyph::Ship <==> state == CellState::Ship && !hide_ships,
            Glyph::of(CellState::Ship, true) == Glyph::of(CellState::Empty, true),
    {
    }
}

/// The glyph for a square in the given state.
pub fn glyph(state: CellState, hide_ships: bool) -> (g: Glyph)
    ensures
        g == Glyph::of(state, hide_ships),
{
    match state {
        CellState::Empty => if hide_ships { Glyph::Blank } else { Glyph::Water },
        CellState::Ship => if hide_ships { Glyph::Blank } else { Glyph::Ship },
        CellState::Hit => Glyph::Hit,
        CellState::Miss => Glyph::Miss,
    }
}

/// The text of a glyph.
pub fn glyph_text(g: Glyph) -> (text: &'static str)
    ensures
        text@ == g.text(),
{
    match g {
        Glyph::Blank => "   ",
        Glyph::Water => " \u{25A1} ",
        Glyph::Ship => " \u{25A0} ",
        Glyph::Hit => "\x1b[31m \u{25CF} \x1b[0m",
        Glyph::Miss => "\x1b[36m \u{00B7} \x1b[0m",
    }
}

impl BoardView {
    /// The number of a row or column as it is drawn: its digit with a space
    /// on either side.
    pub open spec fn label(i: int) -> Seq<char> {
        seq![' ', "0123456789"@[i], ' ']
    }

    /// The labels of the first `n` columns, side by side.
    pub open spec fn labels(n: int) -> Seq<char>
        decreases n,
    {
        if n <= 0 {
            Seq::empty()
        } else {
            Self::labels(n - 1) + Self::label(n - 1)
        }
    }

    /// The glyphs of a run of squares, side by side.
    pub open spec fn cells_text(cells: Seq<CellState>, hide_ships: bool) -> Seq<char>
        decreases cells.len(),
    {
        if cells.len() == 0 {
            Seq::empty()
        } else {
            Self::cells_text(cells.drop_last(), hide_ships) + Glyph::of(cells.last(), hide_ships).text()
        }
    }

    /// The line for one row of the grid: its label, its squares, a line break.
    pub open spec fn row_text(self, row: int, hide_ships: bool) -> Seq<char> {
        Self::label(row) + Self::cells_text(self.grid[row], hide_ships) + "\n"@
    }

    /// The lines of the first `n` rows of the grid.
    pub open spec fn rows_text(self, n: int, hide_ships: bool) -> Seq<char>
        decreases n,
    {
        if n <= 0 {
            Seq::empty()
        } else {
            self.rows_text(n - 1, hide_ships) + self.row_text(n - 1, hide_ships)
        }
    }

    /// The first line of the picture: a margin as wide as a row label, then
    /// the column labels.
    pub open spec fn header() -> Seq<char> {
        "   "@ + Self::labels(BOARD_SIZE as int) + "\n"@
    }

    /// The whole picture of the board.
    pub open spec fn rendered(self, hide_ships: bool) -> Seq<char> {
        Self::header() + self.rows_text(BOARD_SIZE as int, hide_ships)
    }
}

impl BoardView {
    /// Whether two boards look the same to someone who is not shown the
    /// ships: square by square, they get the same glyph on a hidden board.
    pub open spec fn alike_when_hidden(self, other: BoardView) -> bool {
        forall|r: int, c: int|
            Self::in_bounds(r, c) ==> Glyph::of(#[trigger] self.cell(r, c), true) == Glyph::of(
                other.cell(r, c),
                true,
            )
    }

    /// A picture with the ships hidden does not give away where intact
    /// ships are: two boards that differ only in which of their squares
    /// hold open water and which an intact ship are drawn the same.
    pub proof fn lemma_hidden_ships_do_not_show(self, other: BoardView)
        requires
            self.square(),
            other.square(),
            self.alike_when_hidden(other),
        ensures
            self.rendered(true) == other.rendered(true),
    {
        self.lemma_rows_alike(other, BOARD_SIZE as int);
    }

    proof fn lemma_rows_alike(self, other: BoardView, n: int)
        requires
            self.square(),
            other.square(),
            self.alike_when_hidden(other),
            0 <= n <= BOARD_SIZE,
        ensures
            self.rows_text(n, true) == other.rows_text(n, true),
        decreases n,
    {
        if n > 0 {
            self.lemma_rows_alike(other, n - 1);
            self.lemma_cells_alike(other, n - 1, BOARD_SIZE as int);
            assert(self.grid[n - 1].take(BOARD_SIZE as int) =~= self.grid[n - 1]);
            assert(other.grid[n - 1].take(BOARD_SIZE as int) =~= other.grid[n - 1]);
        }
    }

    proof fn lemma_cells_alike(self, other: BoardView, row: int, n: int)
        requires
            self.square(),
            other.square(),
            self.alike_when_hidden(other),
            0 <= row < BOARD_SIZE,
            0 <= n <= BOARD_SIZE,
        ensures
            Self::cells_text(self.grid[row].take(n), true) == Self::cells_text(
                other.grid[row].take(n),
                true,
            ),
        decreases n,
    {
        if n > 0 {
            self.lemma_cells_alike(other, row, n - 1);
            assert(self.grid[row].take(n).drop_last() =~= self.grid[row].take(n - 1));
            assert(other.grid[row].take(n).drop_last() =~= other.grid[row].take(n - 1));
            assert(self.grid[row].take(n).last() == self.cell(row, n - 1));
            assert(other.grid[row].take(n).last() == other.cell(row, n - 1));
        }
    }
}

/// The label of row or column `i`.
fn label(i: usize) -> (text: &'static str)
    requires
        i < BOARD_SIZE,
    ensures
        text@ == BoardView::label(i as int),
{
    proof {
        reveal_strlit("0123456789");
        reveal_strlit(" 0 ");
        reveal_strlit(" 1 ");
        reveal_strlit(" 2 ");
        reveal_strlit(" 3 ");
        reveal_strlit(" 4 ");
        reveal_strlit(" 5 ");
        reveal_strlit(" 6 ");
        reveal_strlit(" 7 ");
        reveal_strlit(" 8 ");
        reveal_strlit(" 9 ");
    }
    let text = match i {
        0 => " 0 ",
        1 => " 1 ",
        2 => " 2 ",
        3 => " 3 ",
        4 => " 4 ",
        5 => " 5 ",
        6 => " 6 ",
        7 => " 7 ",
        8 => " 8 ",
        _ => " 9 ",
    };
    assert(text@ =~= BoardView::label(i as int));
    text
}

impl Board {
    /// Draws the board: a line of column numbers, then one line per row,
    /// each starting with the row's number. With `hide_ships`, squares that
    /// have not been fired on are left blank, so that the picture does not
    /// give away where the ships are.
    pub fn render(&self, hide_ships: bool) -> (text: String)
        ensures
            text@ == self@.rendered(hide_ships),
    {
        proof {
            self.lemma_grid_square();
        }
        let mut text = String::new();
        text.append("   ");
        let mut col: usize = 0;
        while col < BOARD_SIZE
            invariant
                col <= BOARD_SIZE,
                text@ == "   "@ + BoardView::labels(col as int),
            decreases BOARD_SIZE - col,
        {
            text.append(label(col));
            col += 1;
            assert(text@ =~= "   "@ + BoardView::labels(col as int));
        }
        text.append("\n");
        let mut row: usize = 0;
        assert(text@ =~= BoardView::header() + self@.rows_text(0, hide_ships));
        while row < BOARD_SIZE
            invariant
                row <= BOARD_SIZE,
                self@.square(),
                text@ == BoardView::header() + self@.rows_text(row as int, hide_ships),
            decreases BOARD_SIZE - row,
        {
            let ghost done = text@;
            text.append(label(row));
            let mut col: usize = 0;
            while col < BOARD_SIZE
                invariant
                    row < BOARD_SIZE,
                    col <= BOARD_SIZE,
                    self@.square(),
                    text@ == done + BoardView::label(row as int) + BoardView::cells_text(
                        self@.grid[row as int].take(col as int),
                        hide_ships,
                    ),
                decreases BOARD_SIZE - col,
            {
                text.append(glyph_text(glyph(self.cell(row, col), hide_ships)));
                proof {
                    let cells = self@.grid[row as int].take(col + 1);
                    assert(cells.drop_last() =~= self@.grid[row as int].take(col as int));
                    assert(cells.last() == self@.cell(row as int, col as int));
                }
                col += 1;
                assert(text@ =~= done + BoardView::label(row as int) + BoardView::cells_text(
                    self@.grid[row as int].take(col as int),
                    hide_ships,
                ));
            }
            text.append("\n");
            assert(self@.grid[row as int].take(BOARD_SIZE as int) =~= self@.grid[row as int]);
            row += 1;
            assert(text@ =~= BoardView::header() + self@.rows_text(row as int, hide_ships));
        }
        text
    }
}

} // verus!
