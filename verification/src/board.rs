//! One player's grid and the squares its fleet occupies.

use vstd::prelude::*;
use crate::cell::{CellState, BOARD_SIZE};
use crate::random::{random_below, random_flag};

verus! {

/// How many random positions `Board::place_ship` tries before it gives up.
/// Where a ship fits at all, at least one draw in two hundred succeeds, so
/// this many failures in a row do not happen in practice; the bound only
/// keeps a call from running forever on a board with no room left.
pub const PLACEMENT_ATTEMPTS: u32 = 1_000_000;

/// The lengths of the ships of one fleet, in the order in which they are
/// placed. Two of them share a length; the fleet covers 21 squares.
pub const FLEET: [usize; 5] = [5, 4, 5, 5, 2];

/// The mathematical model of a [`Board`]: the grid as rows of squares, and the
/// squares that ships were placed on, in placement order.
pub struct BoardView {
    pub grid: Seq<Seq<CellState>>,
    pub ships: Seq<(usize, usize)>,
}

impl BoardView {
    /// Whether `(row, col)` names a square of the grid.
    pub open spec fn in_bounds(row: int, col: int) -> bool {
        0 <= row < BOARD_SIZE && 0 <= col < BOARD_SIZE
    }

    /// The grid has `BOARD_SIZE` rows of `BOARD_SIZE` squares.
    pub open spec fn square(self) -> bool {
        &&& self.grid.len() == BOARD_SIZE
        &&& forall|r: int| 0 <= r < BOARD_SIZE ==> (#[trigger] self.grid[r]).len() == BOARD_SIZE
    }

    /// The state of the square at `(row, col)`.
    pub open spec fn cell(self, row: int, col: int) -> CellState {
        self.grid[row][col]
    }

    /// The state of the square that the `i`-th recorded ship coordinate names.
    pub open spec fn ship_cell(self, i: int) -> CellState {
        self.cell(self.ships[i].0 as int, self.ships[i].1 as int)
    }

    /// The board with nothing on it.
    pub open spec fn empty() -> BoardView {
        BoardView {
            grid: Seq::new(
                BOARD_SIZE as nat,
                |r: int| Seq::new(BOARD_SIZE as nat, |c: int| CellState::Empty),
            ),
            ships: Seq::empty(),
        }
    }

    /// The invariant of a board: the grid is square; no coordinate is recorded
    /// twice; every recorded coordinate is on the grid and holds `Ship` or
    /// `Hit`; and every square that holds `Ship` or `Hit` is recorded.
    pub open spec fn wf(self) -> bool {
        &&& self.square()
        &&& self.ships.no_duplicates()
        &&& forall|i: int|
            0 <= i < self.ships.len() ==> {
                &&& Self::in_bounds((#[trigger] self.ships[i]).0 as int, self.ships[i].1 as int)
                &&& self.ship_cell(i).is_ship_square()
            }
        &&& forall|r: int, c: int|
            Self::in_bounds(r, c) && (#[trigger] self.cell(r, c)).is_ship_square()
                ==> self.ships.contains((r as usize, c as usize))
    }

    /// Whether `(row, col)` is on the grid and holds open water.
    pub open spec fn is_free(self, row: int, col: int) -> bool {
        Self::in_bounds(row, col) && self.cell(row, col) == CellState::Empty
    }

    /// The `i`-th square of a run that starts at `(row, col)`: to the right of
    /// the start when the run is horizontal, below it when it is vertical.
    pub open spec fn run_square(row: int, col: int, horizontal: bool, i: int) -> (int, int) {
        if horizontal {
            (row, col + i)
        } else {
            (row + i, col)
        }
    }

    /// Whether `(r, c)` is one of the `size` squares of the run that starts at
    /// `(row, col)`.
    pub open spec fn in_run(row: int, col: int, size: int, horizontal: bool, r: int, c: int) -> bool {
        if horizontal {
            r == row && col <= c < col + size
        } else {
            c == col && row <= r < row + size
        }
    }

    /// Whether a ship of `size` squares can go at `(row, col)`: the run ends
    /// on the grid, and each of its squares is on the grid and holds open water.
    pub open spec fn can_place(self, row: int, col: int, size: int, horizontal: bool) -> bool {
        &&& (if horizontal { col } else { row }) + size <= BOARD_SIZE
        &&& forall|i: int|
            0 <= i < size ==> {
                let sq = #[trigger] Self::run_square(row, col, horizontal, i);
                self.is_free(sq.0, sq.1)
            }
    }

    /// The coordinates of a run, first square first.
    pub open spec fn run_squares(row: int, col: int, size: int, horizontal: bool) -> Seq<(usize, usize)> {
        Seq::new(
            size as nat,
            |i: int|
                {
                    let sq = Self::run_square(row, col, horizontal, i);
                    (sq.0 as usize, sq.1 as usize)
                },
        )
    }

    /// The board after a ship of `size` squares went down at `(row, col)`: the
    /// squares of the run hold `Ship`, every other square is as before, and
    /// the run's coordinates follow those recorded before.
    pub open spec fn with_ship(self, row: int, col: int, size: int, horizontal: bool) -> BoardView {
        BoardView {
            grid: Seq::new(
                BOARD_SIZE as nat,
                |r: int|
                    Seq::new(
                        BOARD_SIZE as nat,
                        |c: int|
                            if Self::in_run(row, col, size, horizontal, r, c) {
                                CellState::Ship
                            } else {
                                self.grid[r][c]
                            },
                    ),
            ),
            ships: self.ships + Self::run_squares(row, col, size, horizontal),
        }
    }

    /// Whether `after` is this board with a ship of `size` squares placed at
    /// `(row, col)`, a start on the grid where the ship fits.
    pub open spec fn is_placement(
        self,
        row: int,
        col: int,
        size: int,
        horizontal: bool,
        after: BoardView,
    ) -> bool {
        &&& Self::in_bounds(row, col)
        &&& self.can_place(row, col, size, horizontal)
        &&& after == self.with_ship(row, col, size, horizontal)
    }

    /// Whether `after` is this board with one more ship of `size` squares,
    /// placed at some start and in some orientation where it fits.
    pub open spec fn placed_somewhere(self, size: int, after: BoardView) -> bool {
        exists|row: int, col: int, horizontal: bool| #[trigger]
            self.is_placement(row, col, size, horizontal, after)
    }

    /// Whether a ship of `size` squares fits at every start on the grid, in
    /// both orientations.
    pub open spec fn fits_everywhere(self, size: int) -> bool {
        forall|row: int, col: int, horizontal: bool|
            Self::in_bounds(row, col) ==> #[trigger] self.can_place(row, col, size, horizontal)
    }

    /// Whether `after` is this board with ships of the given sizes placed
    /// one after the other, each at some position where it fitted on the
    /// board as the ships before it had left it.
    pub open spec fn fleet_placed(self, sizes: Seq<usize>, after: BoardView) -> bool
        decreases sizes.len(),
    {
        if sizes.len() == 0 {
            after == self
        } else {
            exists|mid: BoardView|
                self.fleet_placed(sizes.drop_last(), mid) && #[trigger] mid.placed_somewhere(
                    sizes.last() as int,
                    after,
                )
        }
    }

    /// The number of squares that ships of the given sizes cover.
    pub open spec fn total_squares(sizes: Seq<usize>) -> int
        decreases sizes.len(),
    {
        if sizes.len() == 0 {
            0
        } else {
            Self::total_squares(sizes.drop_last()) + sizes.last()
        }
    }

    /// Whether every recorded ship square still holds `Ship`: no ship has
    /// been hit yet.
    pub open spec fn fleet_intact(self) -> bool {
        forall|i: int| 0 <= i < self.ships.len() ==> #[trigger] self.ship_cell(i) == CellState::Ship
    }

    /// The board after a shot at `(row, col)`: that square is resolved, all
    /// else is unchanged.
    pub open spec fn fired(self, row: int, col: int) -> BoardView {
        BoardView {
            grid: self.grid.update(row, self.grid[row].update(col, self.cell(row, col).after_shot())),
            ships: self.ships,
        }
    }

    /// Whether every recorded ship square has been hit.
    pub open spec fn defeated(self) -> bool {
        forall|i: int| 0 <= i < self.ships.len() ==> #[trigger] self.ship_cell(i) == CellState::Hit
    }
}

impl BoardView {
    /// The empty board is well formed, records no ship square, and every
    /// square of it is open water.
    pub proof fn lemma_empty_wf()
        ensures
            Self::empty().wf(),
            Self::empty().ships.len() == 0,
            forall|r: int, c: int|
                Self::in_bounds(r, c) ==> #[trigger] Self::empty().cell(r, c) == CellState::Empty,
    {
    }

    /// Placing a ship where it fits keeps the board well formed. Every
    /// coordinate recorded afterwards is on the grid; the squares of the new
    /// ship all hold `Ship`; no other square changes; and where no recorded
    /// square had been hit before, every recorded square holds `Ship`.
    pub proof fn lemma_placement_keeps_wf(self, row: int, col: int, size: int, horizontal: bool)
        requires
            self.wf(),
            0 <= row,
            0 <= col,
            0 <= size,
            self.can_place(row, col, size, horizontal),
        ensures
            ({
                let after = self.with_ship(row, col, size, horizontal);
                &&& after.wf()
                &&& after.ships.len() == self.ships.len() + size
                &&& forall|i: int|
                    0 <= i < after.ships.len() ==> Self::in_bounds(
                        (#[trigger] after.ships[i]).0 as int,
                        after.ships[i].1 as int,
                    )
                &&& forall|i: int|
                    self.ships.len() <= i < after.ships.len() ==> #[trigger] after.ship_cell(i)
                        == CellState::Ship
                &&& forall|r: int, c: int|
                    Self::in_bounds(r, c) && !Self::in_run(row, col, size, horizontal, r, c)
                        ==> #[trigger] after.cell(r, c) == self.cell(r, c)
                &&& self.fleet_intact() ==> after.fleet_intact()
            }),
    {
        let after = self.with_ship(row, col, size, horizontal);
        let run = Self::run_squares(row, col, size, horizontal);
        let n = self.ships.len() as int;
        assert forall|i: int| 0 <= i < size implies {
            let sq = #[trigger] Self::run_square(row, col, horizontal, i);
            &&& self.is_free(sq.0, sq.1)
            &&& Self::in_run(row, col, size, horizontal, sq.0, sq.1)
            &&& after.ships[n + i] == (sq.0 as usize, sq.1 as usize)
            &&& after.ship_cell(n + i) == CellState::Ship
        } by {
            let sq = Self::run_square(row, col, horizontal, i);
            assert(self.is_free(sq.0, sq.1));
            assert(run[i] == (sq.0 as usize, sq.1 as usize));
        }
        assert forall|i: int| 0 <= i < n implies {
            &&& after.ships[i] == self.ships[i]
            &&& !Self::in_run(row, col, size, horizontal, self.ships[i].0 as int, self.ships[i].1 as int)
            &&& after.ship_cell(i) == self.ship_cell(i)
        } by {
            let r = self.ships[i].0 as int;
            let c = self.ships[i].1 as int;
            assert(self.ship_cell(i).is_ship_square());
            if Self::in_run(row, col, size, horizontal, r, c) {
                let k = if horizontal { c - col } else { r - row };
                assert(Self::run_square(row, col, horizontal, k) == (r, c));
                assert(self.is_free(r, c));
            }
        }
        assert forall|i: int| 0 <= i < after.ships.len() implies {
            &&& Self::in_bounds((#[trigger] after.ships[i]).0 as int, after.ships[i].1 as int)
            &&& after.ship_cell(i).is_ship_square()
        } by {
            if i >= n {
                let sq = Self::run_square(row, col, horizontal, i - n);
                assert(self.is_free(sq.0, sq.1));
                assert(after.ships[n + (i - n)] == (sq.0 as usize, sq.1 as usize));
            }
        }
        assert forall|i: int, j: int| 0 <= i < after.ships.len() && 0 <= j < after.ships.len() && i != j
            implies after.ships[i] != after.ships[j] by {
            self.lemma_recorded_apart(row, col, size, horizontal, i, j);
        }
        assert forall|r: int, c: int| Self::in_bounds(r, c) && (#[trigger] after.cell(r, c)).is_ship_square()
            implies after.ships.contains((r as usize, c as usize)) by {
            if Self::in_run(row, col, size, horizontal, r, c) {
                let k = if horizontal { c - col } else { r - row };
                assert(Self::run_square(row, col, horizontal, k) == (r, c));
                assert(after.ships[n + k] == (r as usize, c as usize));
            } else {
                assert(self.cell(r, c).is_ship_square());
                let i = choose|i: int| 0 <= i < n && self.ships[i] == (r as usize, c as usize);
                assert(after.ships[i] == (r as usize, c as usize));
            }
        }
        assert forall|i: int| n <= i < after.ships.len() implies #[trigger] after.ship_cell(i)
            == CellState::Ship by {
            assert(after.ship_cell(n + (i - n)) == CellState::Ship);
        }
        if self.fleet_intact() {
            assert forall|i: int| 0 <= i < after.ships.len() implies #[trigger] after.ship_cell(i)
                == CellState::Ship by {
                if i < n {
                    assert(self.ship_cell(i) == CellState::Ship);
                }
            }
        }
    }

    /// After a placement where the ship fits, two different entries of the
    /// ship list name two different squares.
    proof fn lemma_recorded_apart(
        self,
        row: int,
        col: int,
        size: int,
        horizontal: bool,
        i: int,
        j: int,
    )
        requires
            self.wf(),
            0 <= row,
            0 <= col,
            0 <= size,
            self.can_place(row, col, size, horizontal),
            0 <= i < self.ships.len() + size,
            0 <= j < self.ships.len() + size,
            i != j,
        ensures
            self.with_ship(row, col, size, horizontal).ships[i] != self.with_ship(
                row,
                col,
                size,
                horizontal,
            ).ships[j],
    {
        let before = self;
        let after = before.with_ship(row, col, size, horizontal);
        let n = before.ships.len() as int;
        let run = Self::run_squares(row, col, size, horizontal);
        if i >= n {
            let sq = Self::run_square(row, col, horizontal, i - n);
            assert(before.is_free(sq.0, sq.1));
            assert(after.ships[i] == run[i - n]);
        }
        if j >= n {
            let sq = Self::run_square(row, col, horizontal, j - n);
            assert(before.is_free(sq.0, sq.1));
            assert(after.ships[j] == run[j - n]);
        }
        if i < n {
            assert(before.ship_cell(i).is_ship_square());
        }
        if j < n {
            assert(before.ship_cell(j).is_ship_square());
        }
    }

    /// A ship that was placed lies on the grid and shows as a ship: the
    /// board is still well formed, so every recorded coordinate is on the
    /// grid and none is recorded twice; the ship is no longer than the grid;
    /// the list has grown by the ship's squares, which all hold `Ship`; and
    /// if no ship had been hit before, every recorded square holds `Ship`.
    pub proof fn lemma_placed_ship_shows(self, size: int, after: BoardView)
        requires
            self.wf(),
            0 <= size,
            self.placed_somewhere(size, after),
        ensures
            after.wf(),
            size <= BOARD_SIZE,
            after.ships.len() == self.ships.len() + size,
            after.ships.subrange(0, self.ships.len() as int) == self.ships,
            forall|i: int|
                0 <= i < after.ships.len() ==> Self::in_bounds(
                    (#[trigger] after.ships[i]).0 as int,
                    after.ships[i].1 as int,
                ),
            forall|i: int|
                self.ships.len() <= i < after.ships.len() ==> #[trigger] after.ship_cell(i)
                    == CellState::Ship,
            self.fleet_intact() ==> after.fleet_intact(),
    {
        let (row, col, horizontal) = choose|row: int, col: int, horizontal: bool| #[trigger]
            self.is_placement(row, col, size, horizontal, after);
        self.lemma_placement_keeps_wf(row, col, size, horizontal);
        assert(after.ships.subrange(0, self.ships.len() as int) =~= self.ships);
    }

    /// The ships of one fleet cover 21 squares.
    pub proof fn lemma_fleet_covers_21()
        ensures
            Self::total_squares(FLEET@) == 21,
    {
        let a = FLEET@;
        let b = a.drop_last();
        let c = b.drop_last();
        let d = c.drop_last();
        let e = d.drop_last();
        assert(e.drop_last().len() == 0);
        assert(Self::total_squares(e) == 5) by {
            reveal_with_fuel(BoardView::total_squares, 2);
        }
        assert(Self::total_squares(d) == 9);
        assert(Self::total_squares(c) == 14);
        assert(Self::total_squares(b) == 19);
    }

    /// However many ships are placed one after the other, the board stays
    /// well formed: no two recorded coordinates are the same square, each is
    /// on the grid, and the list has grown by the squares the ships cover. If
    /// no ship had been hit before, every recorded square holds `Ship`.
    pub proof fn lemma_fleet_keeps_wf(self, sizes: Seq<usize>, after: BoardView)
        requires
            self.wf(),
            self.fleet_placed(sizes, after),
        ensures
            after.wf(),
            after.ships.no_duplicates(),
            after.ships.len() == self.ships.len() + Self::total_squares(sizes),
            forall|i: int|
                0 <= i < after.ships.len() ==> Self::in_bounds(
                    (#[trigger] after.ships[i]).0 as int,
                    after.ships[i].1 as int,
                ),
            self.fleet_intact() ==> after.fleet_intact(),
        decreases sizes.len(),
    {
        if sizes.len() > 0 {
            let mid = choose|mid: BoardView|
                self.fleet_placed(sizes.drop_last(), mid) && #[trigger] mid.placed_somewhere(
                    sizes.last() as int,
                    after,
                );
            self.lemma_fleet_keeps_wf(sizes.drop_last(), mid);
            let size = sizes.last() as int;
            let (row, col, horizontal) = choose|row: int, col: int, horizontal: bool| #[trigger]
                mid.is_placement(row, col, size, horizontal, after);
            mid.lemma_placement_keeps_wf(row, col, size, horizontal);
        }
    }

    /// A shot at a square of the grid keeps the board well formed and leaves
    /// the ship list as it was.
    pub proof fn lemma_shot_keeps_wf(self, row: int, col: int)
        requires
            self.wf(),
            Self::in_bounds(row, col),
        ensures
            self.fired(row, col).wf(),
            self.fired(row, col).ships == self.ships,
            self.fired(row, col).cell(row, col) == self.cell(row, col).after_shot(),
            forall|r: int, c: int|
                Self::in_bounds(r, c) && (r != row || c != col) ==> #[trigger] self.fired(row, col).cell(r, c)
                    == self.cell(r, c),
    {
        let after = self.fired(row, col);
        assert forall|r: int, c: int| Self::in_bounds(r, c) implies (#[trigger] after.cell(r, c)).is_ship_square()
            == self.cell(r, c).is_ship_square() by {}
        assert forall|i: int| 0 <= i < after.ships.len() implies {
            &&& Self::in_bounds((#[trigger] after.ships[i]).0 as int, after.ships[i].1 as int)
            &&& after.ship_cell(i).is_ship_square()
        } by {
            assert(self.ship_cell(i).is_ship_square());
        }
        assert forall|r: int, c: int| Self::in_bounds(r, c) && (#[trigger] after.cell(r, c)).is_ship_square()
            implies after.ships.contains((r as usize, c as usize)) by {
            assert(self.cell(r, c).is_ship_square());
        }
    }

    /// A second shot at the same square always reports a miss and changes
    /// nothing: a ship square reports a hit and then a miss, open water a
    /// miss and then a miss.
    pub proof fn lemma_second_shot_misses(self, row: int, col: int)
        requires
            self.wf(),
            Self::in_bounds(row, col),
        ensures
            self.cell(row, col) == CellState::Ship ==> self.cell(row, col).shot_result()
                == CellState::Hit,
            self.cell(row, col) == CellState::Empty ==> self.cell(row, col).shot_result()
                == CellState::Miss,
            self.fired(row, col).cell(row, col).shot_result() == CellState::Miss,
            self.fired(row, col).cell(row, col).is_resolved(),
            self.fired(row, col).fired(row, col) == self.fired(row, col),
    {
        let once = self.fired(row, col);
        assert(once.fired(row, col).grid[row] =~= once.grid[row]);
        assert(once.fired(row, col).grid =~= once.grid);
    }

    /// A square that has been fired on keeps its state, wherever the next
    /// shot lands: a hit stays a hit and a miss stays a miss.
    pub proof fn lemma_resolved_stays(self, row: int, col: int, r: int, c: int)
        requires
            self.wf(),
            Self::in_bounds(row, col),
            Self::in_bounds(r, c),
            self.cell(r, c).is_resolved(),
        ensures
            self.fired(row, col).cell(r, c) == self.cell(r, c),
    {
    }

    /// A board with no ship on it counts as defeated.
    pub proof fn lemma_no_ships_defeated(self)
        requires
            self.ships.len() == 0,
        ensures
            self.defeated(),
    {
    }

    /// A board with at least one ship square is defeated exactly when all its
    /// recorded ship squares hold `Hit`, and exactly when no square of the
    /// grid holds `Ship` any more.
    pub proof fn lemma_defeated_iff_all_hit(self)
        requires
            self.wf(),
            self.ships.len() > 0,
        ensures
            self.defeated() <==> (self.ships.len() > 0 && forall|i: int|
                0 <= i < self.ships.len() ==> self.cell(
                    (#[trigger] self.ships[i]).0 as int,
                    self.ships[i].1 as int,
                ) == CellState::Hit),
            self.defeated() <==> (forall|r: int, c: int|
                Self::in_bounds(r, c) ==> #[trigger] self.cell(r, c) != CellState::Ship),
    {
        if self.defeated() {
            assert forall|i: int| 0 <= i < self.ships.len() implies self.cell(
                (#[trigger] self.ships[i]).0 as int,
                self.ships[i].1 as int,
            ) == CellState::Hit by {
                assert(self.ship_cell(i) == CellState::Hit);
            }
            assert forall|r: int, c: int| Self::in_bounds(r, c) implies #[trigger] self.cell(r, c)
                != CellState::Ship by {
                if self.cell(r, c) == CellState::Ship {
                    assert(self.cell(r, c).is_ship_square());
                    let i = choose|i: int|
                        0 <= i < self.ships.len() && self.ships[i] == (r as usize, c as usize);
                    assert(self.ship_cell(i) == CellState::Hit);
                }
            }
        }
        if forall|r: int, c: int| Self::in_bounds(r, c) ==> #[trigger] self.cell(r, c) != CellState::Ship {
            assert forall|i: int| 0 <= i < self.ships.len() implies #[trigger] self.ship_cell(i)
                == CellState::Hit by {
                assert(Self::in_bounds(self.ships[i].0 as int, self.ships[i].1 as int));
                assert(self.ship_cell(i).is_ship_square());
                assert(self.cell(self.ships[i].0 as int, self.ships[i].1 as int) != CellState::Ship);
            }
        }
        if forall|i: int|
            0 <= i < self.ships.len() ==> self.cell(
                (#[trigger] self.ships[i]).0 as int,
                self.ships[i].1 as int,
            ) == CellState::Hit {
            assert forall|i: int| 0 <= i < self.ships.len() implies #[trigger] self.ship_cell(i)
                == CellState::Hit by {
                assert(self.cell(self.ships[i].0 as int, self.ships[i].1 as int) == CellState::Hit);
            }
        }
    }
}

/// A square grid of cell states, and the coordinates of every square that a
/// ship was placed on.
pub struct Board {
    grid: [[CellState; BOARD_SIZE]; BOARD_SIZE],
    ship: Vec<(usize, usize)>,
}

impl View for Board {
    type V = BoardView;

    closed spec fn view(&self) -> BoardView {
        BoardView { grid: Seq::new(BOARD_SIZE as nat, |r: int| self.grid[r]@), ships: self.ship@ }
    }
}

impl Board {
    /// An empty board: every square `Empty`, no ship squares recorded.
    pub fn new() -> (board: Board)
        ensures
            board@ == BoardView::empty(),
            board@.wf(),
    {
        let board = Board { grid: [[CellState::Empty; BOARD_SIZE]; BOARD_SIZE], ship: Vec::new() };
        assert(board@.grid =~~= BoardView::empty().grid);
        board
    }

    /// The grid of every board has `BOARD_SIZE` rows of `BOARD_SIZE` squares.
    pub proof fn lemma_grid_square(&self)
        ensures
            self@.square(),
    {
    }

    /// The state of the square at `(row, col)`.
    pub fn cell(&self, row: usize, col: usize) -> (state: CellState)
        requires
            row < BOARD_SIZE,
            col < BOARD_SIZE,
        ensures
            state == self@.cell(row as int, col as int),
    {
        self.grid[row][col]
    }

    /// The coordinates of every square that a ship was placed on, in
    /// placement order, as `(row, col)` pairs.
    pub fn ship_cells(&self) -> (cells: &Vec<(usize, usize)>)
        ensures
            cells@ == self@.ships,
    {
        &self.ship
    }

    /// Whether a ship of `size` squares can be placed with its first square at
    /// `(row, col)`, running right when `direction` is true and down when it
    /// is false.
    pub fn can_place_ship(&self, row: usize, col: usize, size: usize, direction: bool) -> (ok: bool)
        ensures
            ok == self@.can_place(row as int, col as int, size as int, direction),
    {
        let start: usize = if direction { col } else { row };
        if size > BOARD_SIZE || start > BOARD_SIZE - size {
            return false;
        }
        let mut i: usize = 0;
        while i < size
            invariant
                i <= size,
                start == (if direction { col } else { row }),
                start + size <= BOARD_SIZE,
                forall|j: int|
                    0 <= j < i ==> {
                        let sq = #[trigger] BoardView::run_square(row as int, col as int, direction, j);
                        self@.is_free(sq.0, sq.1)
                    },
            decreases size - i,
        {
            let (r, c) = if direction { (row, col + i) } else { (row + i, col) };
            assert(BoardView::run_square(row as int, col as int, direction, i as int) == (r as int, c as int));
            if r >= BOARD_SIZE || c >= BOARD_SIZE {
                return false;
            }
            if self.grid[r][c] != CellState::Empty {
                return false;
            }
            i += 1;
        }
        true
    }

    /// Places a ship of `size` squares with its first square at `(row, col)`,
    /// running right when `direction` is true and down when it is false, if
    /// it fits there; otherwise leaves the board as it is. Returns whether
    /// the ship was placed.
    pub fn place_ship_at(&mut self, row: usize, col: usize, size: usize, direction: bool) -> (placed:
        bool)
        requires
            old(self)@.wf(),
        ensures
            placed == old(self)@.can_place(row as int, col as int, size as int, direction),
            placed ==> final(self)@ == old(self)@.with_ship(
                row as int,
                col as int,
                size as int,
                direction,
            ),
            !placed ==> final(self)@ == old(self)@,
            final(self)@.wf(),
    {
        if !self.can_place_ship(row, col, size, direction) {
            return false;
        }
        let ghost before = self@;
        let mut i: usize = 0;
        proof {
            assert(before.with_ship(row as int, col as int, 0, direction).grid =~~= before.grid);
            assert(before.with_ship(row as int, col as int, 0, direction).ships =~= before.ships);
        }
        while i < size
            invariant
                i <= size,
                before.wf(),
                before.can_place(row as int, col as int, size as int, direction),
                self@ == before.with_ship(row as int, col as int, i as int, direction),
            decreases size - i,
        {
            let ghost sq = BoardView::run_square(row as int, col as int, direction, i as int);
            assert(before.is_free(sq.0, sq.1));
            let (r, c) = if direction { (row, col + i) } else { (row + i, col) };
            let ghost prev = self@;
            self.grid[r][c] = CellState::Ship;
            self.ship.push((r, c));
            i += 1;
            proof {
                let next = before.with_ship(row as int, col as int, i as int, direction);
                assert(self@.grid[r as int] =~= prev.grid[r as int].update(c as int, CellState::Ship));
                assert forall|rr: int| 0 <= rr < BOARD_SIZE implies #[trigger] self@.grid[rr]
                    =~= next.grid[rr] by {
                    if rr != r {
                        assert(self@.grid[rr] == prev.grid[rr]);
                    }
                }
                assert(self@.grid =~= next.grid);
                assert(self@.ships =~= next.ships);
            }
        }
        proof {
            before.lemma_placement_keeps_wf(row as int, col as int, size as int, direction);
        }
        true
    }

    /// Places a ship of `size` squares at a random position: draws a start
    /// square and an orientation, places the ship there if it fits, and draws
    /// again if it does not, up to `PLACEMENT_ATTEMPTS` times. No draw takes
    /// account of the ones before, and no position is searched for in any
    /// other way. Returns whether the ship was placed; if not, the board is
    /// as it was. A ship that fits wherever it starts is placed by the first
    /// draw.
    pub fn place_ship(&mut self, size: usize) -> (placed: bool)
        requires
            old(self)@.wf(),
        ensures
            placed ==> old(self)@.placed_somewhere(size as int, final(self)@),
            placed ==> size <= BOARD_SIZE && final(self)@.ships.len() == old(self)@.ships.len() + size,
            !placed ==> final(self)@ == old(self)@,
            old(self)@.fits_everywhere(size as int) ==> placed,
            final(self)@.wf(),
    {
        let ghost before = self@;
        let mut generator = rand::rng();
        let mut attempts: u32 = 0;
        while attempts < PLACEMENT_ATTEMPTS
            invariant
                before == old(self)@,
                self@ == before,
                before.wf(),
                attempts > 0 ==> !before.fits_everywhere(size as int),
            decreases PLACEMENT_ATTEMPTS - attempts,
        {
            let row: usize = random_below(&mut generator, BOARD_SIZE);
            let col: usize = random_below(&mut generator, BOARD_SIZE);
            let direction = random_flag(&mut generator);
            if self.place_ship_at(row, col, size, direction) {
                proof {
                    assert(before.is_placement(row as int, col as int, size as int, direction, self@));
                    before.lemma_placed_ship_shows(size as int, self@);
                }
                return true;
            }
            assert(!before.can_place(row as int, col as int, size as int, direction));
            attempts += 1;
        }
        false
    }

    /// Places the ships of `FLEET` one after the other, each at a random
    /// position as `place_ship` does, and stops at the first that could not
    /// be placed. Returns whether the whole fleet is on the board; if not,
    /// the ships placed before the failure stay.
    pub fn place_fleet(&mut self) -> (placed: bool)
        requires
            old(self)@.wf(),
        ensures
            placed ==> old(self)@.fleet_placed(FLEET@, final(self)@),
            !placed ==> exists|k: int|
                0 <= k < FLEET@.len() && #[trigger] old(self)@.fleet_placed(FLEET@.take(k), final(self)@),
            final(self)@.wf(),
    {
        let ghost before = self@;
        let mut k: usize = 0;
        assert(FLEET@.take(0).len() == 0);
        while k < FLEET.len()
            invariant
                k <= FLEET@.len(),
                before == old(self)@,
                self@.wf(),
                before.fleet_placed(FLEET@.take(k as int), self@),
            decreases FLEET@.len() - k,
        {
            let ghost mid = self@;
            if !self.place_ship(FLEET[k]) {
                return false;
            }
            proof {
                let sizes = FLEET@.take(k + 1);
                assert(sizes.drop_last() =~= FLEET@.take(k as int));
                assert(sizes.last() == FLEET@[k as int]);
                assert(mid.placed_somewhere(sizes.last() as int, self@));
            }
            k += 1;
        }
        assert(FLEET@.take(k as int) =~= FLEET@);
        true
    }

    /// Fires at `(row, col)`. Open water becomes a miss and a ship square a
    /// hit; a square already fired on stays as it is and reports a miss.
    pub fn fire(&mut self, row: usize, col: usize) -> (result: CellState)
        requires
            old(self)@.wf(),
            row < BOARD_SIZE,
            col < BOARD_SIZE,
        ensures
            result == old(self)@.cell(row as int, col as int).shot_result(),
            final(self)@ == old(self)@.fired(row as int, col as int),
            final(self)@.wf(),
    {
        let ghost before = self@;
        let result = match self.grid[row][col] {
            CellState::Empty => {
                self.grid[row][col] = CellState::Miss;
                CellState::Miss
            },
            CellState::Ship => {
                self.grid[row][col] = CellState::Hit;
                CellState::Hit
            },
            _ => CellState::Miss,
        };
        proof {
            assert(self@.grid =~~= before.fired(row as int, col as int).grid);
            before.lemma_shot_keeps_wf(row as int, col as int);
        }
        result
    }

    /// Whether the fleet on this board is sunk: every recorded ship square
    /// has been hit. A board with no ship on it counts as sunk.
    pub fn is_game_over(&self) -> (over: bool)
        requires
            self@.wf(),
        ensures
            over == self@.defeated(),
    {
        let mut i: usize = 0;
        while i < self.ship.len()
            invariant
                i <= self.ship.len(),
                self@.wf(),
                forall|j: int| 0 <= j < i ==> #[trigger] self@.ship_cell(j) == CellState::Hit,
            decreases self.ship.len() - i,
        {
            let (r, c) = self.ship[i];
            assert(BoardView::in_bounds(self@.ships[i as int].0 as int, self@.ships[i as int].1 as int));
            if self.grid[r][c] != CellState::Hit {
                assert(self@.ship_cell(i as int) != CellState::Hit);
                return false;
            }
            i += 1;
        }
        true
    }
}

} // verus!
