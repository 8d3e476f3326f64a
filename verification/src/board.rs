//! The mathematical model of a grid and of the rule that advances it.

use vstd::prelude::*;

verus! {

/// One cell of the grid.
///
/// `current_state` is the cell's state in the present generation (`true` is
/// alive). `next_state` is a staging slot that only a generation step writes
/// and reads.
#[derive(Clone, Copy, Debug)]
pub struct Cell {
    pub current_state: bool,
    pub next_state: bool,
}

/// The rule of the game: a live cell survives with two or three live
/// neighbours, a dead cell comes alive with exactly three, and every other
/// cell is dead in the next generation.
pub open spec fn rule(alive: bool, live_neighbors: int) -> bool {
    if alive {
        live_neighbors == 2 || live_neighbors == 3
    } else {
        live_neighbors == 3
    }
}

/// A grid as a mathematical value: `rows[y][x]` is the cell in column `x` of
/// row `y`.
pub struct Board {
    pub rows: Seq<Seq<Cell>>,
}

impl Board {
    /// The number of rows.
    pub open spec fn height(self) -> int {
        self.rows.len() as int
    }

    /// The number of columns.
    pub open spec fn width(self) -> int {
        if self.rows.len() > 0 {
            self.rows[0].len() as int
        } else {
            0
        }
    }

    /// A board is well formed when it has at least one row and one column and
    /// all its rows have the same length.
    pub open spec fn wf(self) -> bool {
        &&& self.height() > 0
        &&& self.width() > 0
        &&& forall|y: int| 0 <= y < self.height() ==> (#[trigger] self.rows[y]).len() == self.width()
    }

    /// Whether `(x, y)` addresses a cell of the board.
    pub open spec fn in_bounds(self, x: int, y: int) -> bool {
        0 <= x < self.width() && 0 <= y < self.height()
    }

    /// Whether `(x, y)` is a cell of the board that is alive. A coordinate
    /// outside the board is never alive: the board does not wrap around.
    pub open spec fn alive(self, x: int, y: int) -> bool {
        self.in_bounds(x, y) && self.rows[y][x].current_state
    }

    /// The cell at `(x, y)`.
    pub open spec fn cell(self, x: int, y: int) -> Cell {
        self.rows[y][x]
    }

    /// The staged value of the cell at `(x, y)`.
    pub open spec fn staged(self, x: int, y: int) -> bool {
        self.rows[y][x].next_state
    }

    /// The board with the cell at `(x, y)` replaced by `c`.
    pub open spec fn put(self, x: int, y: int, c: Cell) -> Board {
        Board { rows: self.rows.update(y, self.rows[y].update(x, c)) }
    }

    /// One if `(x, y)` is a live cell of the board, zero otherwise.
    pub open spec fn live_at(self, x: int, y: int) -> int {
        if self.alive(x, y) {
            1
        } else {
            0
        }
    }

    /// The number of live cells among the eight positions around `(x, y)`.
    pub open spec fn live_neighbors(self, x: int, y: int) -> int {
        self.live_at(x - 1, y - 1) + self.live_at(x, y - 1) + self.live_at(x + 1, y - 1)
            + self.live_at(x - 1, y) + self.live_at(x + 1, y)
            + self.live_at(x - 1, y + 1) + self.live_at(x, y + 1) + self.live_at(x + 1, y + 1)
    }

    /// The state of the cell at `(x, y)` in the next generation.
    pub open spec fn next_alive(self, x: int, y: int) -> bool {
        rule(self.alive(x, y), self.live_neighbors(x, y))
    }

    /// The board with every cell dead and nothing staged.
    pub open spec fn blank(width: int, height: int) -> Board {
        Board {
            rows: Seq::new(
                height as nat,
                |y: int| Seq::new(width as nat, |x: int| Cell { current_state: false, next_state: false }),
            ),
        }
    }

    /// The board in which the cell at `(x, y)` has the given current state
    /// and everything else, staged values included, is as in `self`.
    pub open spec fn with_state(self, x: int, y: int, alive: bool) -> Board {
        self.put(x, y, Cell { current_state: alive, next_state: self.staged(x, y) })
    }

    /// The board one generation later: every cell's new state follows from
    /// the rule applied to this board, and the staged value of each cell is
    /// the state that was committed.
    pub open spec fn stepped(self) -> Board {
        Board {
            rows: Seq::new(
                self.rows.len(),
                |y: int|
                    Seq::new(
                        self.rows[y].len(),
                        |x: int|
                            Cell {
                                current_state: self.next_alive(x, y),
                                next_state: self.next_alive(x, y),
                            },
                    ),
            ),
        }
    }

    /// The board `n` generations later.
    pub open spec fn generations(self, n: nat) -> Board
        decreases n,
    {
        if n == 0 {
            self
        } else {
            self.stepped().generations((n - 1) as nat)
        }
    }

    /// Whether the live cells of the board are exactly the four cells of the
    /// two-by-two block whose upper left corner is `(x, y)`.
    pub open spec fn is_block(self, x: int, y: int) -> bool {
        &&& self.in_bounds(x, y)
        &&& self.in_bounds(x + 1, y + 1)
        &&& forall|i: int, j: int| #[trigger]
            self.alive(i, j) <==> (x <= i <= x + 1 && y <= j <= y + 1)
    }
}

} // verus!
