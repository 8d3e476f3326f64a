//! The executable grid: construction, reads, single-cell edits and the
//! generation step.

use vstd::prelude::*;
use crate::board::Board;
use crate::board::Cell;
use crate::board::rule;
use crate::laws::lemma_edit_is_local;
use crate::laws::lemma_put;
use crate::laws::lemma_stepped;
use crate::rule::next_state;

verus! {

/// Why a grid could not be made.
#[derive(Clone, Copy, Debug, PartialEq, Eq, Structural)]
pub enum GridError {
    /// The width asked for was zero.
    ZeroWidth,
    /// The height asked for was zero (and the width was not).
    ZeroHeight,
}

/// A dense grid of cells whose dimensions are fixed when it is made.
pub struct Grid {
    cells: Vec<Vec<Cell>>,
}

impl View for Grid {
    type V = Board;

    closed spec fn view(&self) -> Board {
        Board { rows: Seq::new(self.cells@.len(), |y: int| self.cells@[y]@) }
    }
}

impl Grid {
    /// The invariant of every grid: it has at least one row and one column,
    /// and all rows are equally long.
    pub open spec fn wf(&self) -> bool {
        self@.wf()
    }

    /// The rows of the board are the rows that the grid stores.
    proof fn lemma_rows(&self)
        ensures
            self@.rows.len() == self.cells@.len(),
            forall|y: int| 0 <= y < self.cells@.len() ==> #[trigger] self@.rows[y] == self.cells@[y]@,
    {
    }

    /// Makes a grid of `width` columns and `height` rows in which every cell
    /// is dead. A grid without cells is refused.
    pub fn new(width: usize, height: usize) -> (res: Result<Grid, GridError>)
        ensures
            match res {
                Ok(grid) => {
                    &&& width > 0
                    &&& height > 0
                    &&& grid.wf()
                    &&& grid@ == Board::blank(width as int, height as int)
                },
                Err(GridError::ZeroWidth) => width == 0,
                Err(GridError::ZeroHeight) => width > 0 && height == 0,
            },
    {
        if width == 0 {
            return Err(GridError::ZeroWidth);
        }
        if height == 0 {
            return Err(GridError::ZeroHeight);
        }
        let dead = Cell { current_state: false, next_state: false };
        let mut cells: Vec<Vec<Cell>> = Vec::new();
        let mut y: usize = 0;
        while y < height
            invariant
                y <= height,
                cells@.len() == y,
                dead == (Cell { current_state: false, next_state: false }),
                forall|j: int| 0 <= j < y ==> (#[trigger] cells@[j])@ == Seq::new(width as nat, |x: int| dead),
            decreases height - y,
        {
            let mut row: Vec<Cell> = Vec::new();
            let mut x: usize = 0;
            while x < width
                invariant
                    x <= width,
                    row@.len() == x,
                    forall|i: int| 0 <= i < x ==> #[trigger] row@[i] == dead,
                decreases width - x,
            {
                row.push(dead);
                x += 1;
            }
            assert(row@ =~= Seq::new(width as nat, |x: int| dead));
            cells.push(row);
            y += 1;
        }
        let grid = Grid { cells };
        proof {
            grid.lemma_rows();
            assert(grid@.rows =~~= Board::blank(width as int, height as int).rows);
        }
        Ok(grid)
    }

    /// The number of columns.
    pub fn width(&self) -> (w: usize)
        requires
            self.wf(),
        ensures
            w == self@.width(),
            w > 0,
    {
        proof {
            self.lemma_rows();
        }
        self.cells[0].len()
    }

    /// The number of rows.
    pub fn height(&self) -> (h: usize)
        requires
            self.wf(),
        ensures
            h == self@.height(),
            h > 0,
    {
        self.cells.len()
    }

    /// Whether `(x, y)` addresses a cell of the grid.
    pub fn contains(&self, x: usize, y: usize) -> (inside: bool)
        requires
            self.wf(),
        ensures
            inside == self@.in_bounds(x as int, y as int),
    {
        x < self.width() && y < self.height()
    }

    /// The cell at `(x, y)` with both its fields. Only `current_state` says
    /// what the grid holds; `next_state` is what the last generation staged
    /// for the cell.
    pub fn cell(&self, x: usize, y: usize) -> (c: Cell)
        requires
            self.wf(),
            self@.in_bounds(x as int, y as int),
        ensures
            c == self@.cell(x as int, y as int),
    {
        proof {
            self.lemma_rows();
            assert(self@.rows[y as int] == self.cells@[y as int]@);
        }
        self.cells[y][x]
    }

    /// Replaces the cell at `(x, y)`.
    fn put(&mut self, x: usize, y: usize, c: Cell)
        requires
            old(self).wf(),
            old(self)@.in_bounds(x as int, y as int),
        ensures
            final(self).wf(),
            final(self)@ == old(self)@.put(x as int, y as int, c),
    {
        proof {
            self.lemma_rows();
            assert(self@.rows[y as int] == self.cells@[y as int]@);
        }
        self.cells[y][x] = c;
        proof {
            self.lemma_rows();
            assert(self@.rows =~~= old(self)@.put(x as int, y as int, c).rows);
        }
    }

    /// Whether the cell at `(x, y)` is alive in the present generation.
    pub fn is_alive(&self, x: usize, y: usize) -> (alive: bool)
        requires
            self.wf(),
            self@.in_bounds(x as int, y as int),
        ensures
            alive == self@.alive(x as int, y as int),
    {
        self.cell(x, y).current_state
    }

    /// Counts the live cells among the eight positions around `(x, y)`.
    /// Positions beyond an edge of the grid are skipped: nothing wraps
    /// around, so a corner has three neighbours and an edge cell five.
    pub fn count_live_neighbors(&self, x: usize, y: usize) -> (count: u8)
        requires
            self.wf(),
            self@.in_bounds(x as int, y as int),
        ensures
            count == self@.live_neighbors(x as int, y as int),
            count <= 8,
    {
        let width = self.width();
        let height = self.height();
        let left = x > 0;
        let right = x + 1 < width;
        let up = y > 0;
        let down = y + 1 < height;
        let mut count: u8 = 0;
        if up && left && self.is_alive(x - 1, y - 1) {
            count += 1;
        }
        if up && self.is_alive(x, y - 1) {
            count += 1;
        }
        if up && right && self.is_alive(x + 1, y - 1) {
            count += 1;
        }
        if left && self.is_alive(x - 1, y) {
            count += 1;
        }
        if right && self.is_alive(x + 1, y) {
            count += 1;
        }
        if down && left && self.is_alive(x - 1, y + 1) {
            count += 1;
        }
        if down && self.is_alive(x, y + 1) {
            count += 1;
        }
        if down && right && self.is_alive(x + 1, y + 1) {
            count += 1;
        }
        count
    }

    /// Sets the current state of the cell at `(x, y)` to alive, whatever the
    /// rule would say. No other cell changes, and no staged value does.
    pub fn set_alive(&mut self, x: usize, y: usize)
        requires
            old(self).wf(),
            old(self)@.in_bounds(x as int, y as int),
        ensures
            final(self).wf(),
            final(self)@ == old(self)@.with_state(x as int, y as int, true),
            final(self)@.width() == old(self)@.width(),
            final(self)@.height() == old(self)@.height(),
            final(self)@.alive(x as int, y as int),
            forall|i: int, j: int|
                old(self)@.in_bounds(i, j) ==> #[trigger] final(self)@.staged(i, j)
                    == old(self)@.staged(i, j),
            forall|i: int, j: int|
                !(i == x && j == y) ==> #[trigger] final(self)@.alive(i, j) == old(self)@.alive(i, j),
    {
        proof {
            lemma_edit_is_local(self@, x as int, y as int, true);
        }
        let c = self.cell(x, y);
        self.put(x, y, Cell { current_state: true, next_state: c.next_state });
    }

    /// Sets the current state of the cell at `(x, y)` to dead, whatever the
    /// rule would say. No other cell changes, and no staged value does.
    pub fn set_dead(&mut self, x: usize, y: usize)
        requires
            old(self).wf(),
            old(self)@.in_bounds(x as int, y as int),
        ensures
            final(self).wf(),
            final(self)@ == old(self)@.with_state(x as int, y as int, false),
            final(self)@.width() == old(self)@.width(),
            final(self)@.height() == old(self)@.height(),
            !final(self)@.alive(x as int, y as int),
            forall|i: int, j: int|
                old(self)@.in_bounds(i, j) ==> #[trigger] final(self)@.staged(i, j)
                    == old(self)@.staged(i, j),
            forall|i: int, j: int|
                !(i == x && j == y) ==> #[trigger] final(self)@.alive(i, j) == old(self)@.alive(i, j),
    {
        proof {
            lemma_edit_is_local(self@, x as int, y as int, false);
        }
        let c = self.cell(x, y);
        self.put(x, y, Cell { current_state: false, next_state: c.next_state });
    }

    /// Advances the grid by exactly one generation, in place.
    ///
    /// The first pass stages every cell's next state from the present
    /// generation alone; only then does the second pass commit the staged
    /// values. Every cell is therefore judged against the same generation.
    pub fn step(&mut self)
        requires
            old(self).wf(),
        ensures
            final(self).wf(),
            final(self)@ == old(self)@.stepped(),
            final(self)@.width() == old(self)@.width(),
            final(self)@.height() == old(self)@.height(),
            forall|i: int, j: int|
                old(self)@.in_bounds(i, j) ==> #[trigger] final(self)@.alive(i, j) == rule(
                    old(self)@.alive(i, j),
                    old(self)@.live_neighbors(i, j),
                ),
    {
        let ghost before = self@;
        proof {
            lemma_stepped(before);
        }
        let width = self.width();
        let height = self.height();
        let mut y: usize = 0;
        while y < height
            invariant
                y <= height,
                self.wf(),
                before.wf(),
                width == before.width(),
                height == before.height(),
                self@.width() == before.width(),
                self@.height() == before.height(),
                forall|i: int, j: int|
                    before.in_bounds(i, j) ==> (#[trigger] self@.cell(i, j)).current_state
                        == before.cell(i, j).current_state,
                forall|i: int, j: int|
                    before.in_bounds(i, j) && j < y ==> (#[trigger] self@.cell(i, j)).next_state
                        == before.next_alive(i, j),
            decreases height - y,
        {
            let mut x: usize = 0;
            while x < width
                invariant
                    x <= width,
                    y < height,
                    self.wf(),
                    before.wf(),
                    width == before.width(),
                    height == before.height(),
                    self@.width() == before.width(),
                    self@.height() == before.height(),
                    forall|i: int, j: int|
                        before.in_bounds(i, j) ==> (#[trigger] self@.cell(i, j)).current_state
                            == before.cell(i, j).current_state,
                    forall|i: int, j: int|
                        before.in_bounds(i, j) && (j < y || (j == y && i < x))
                            ==> (#[trigger] self@.cell(i, j)).next_state == before.next_alive(i, j),
                decreases width - x,
            {
                let live = self.count_live_neighbors(x, y);
                let cell = self.cell(x, y);
                proof {
                    lemma_same_neighbors(self@, before, x as int, y as int);
                }
                let next = next_state(cell.current_state, live);
                let staged = Cell { current_state: cell.current_state, next_state: next };
                proof {
                    lemma_put(self@, x as int, y as int, staged);
                }
                self.put(x, y, staged);
                x += 1;
            }
            y += 1;
        }
        let mut y: usize = 0;
        while y < height
            invariant
                y <= height,
                self.wf(),
                before.wf(),
                width == before.width(),
                height == before.height(),
                self@.width() == before.width(),
                self@.height() == before.height(),
                forall|i: int, j: int|
                    before.in_bounds(i, j) ==> (#[trigger] self@.cell(i, j)).next_state == before.next_alive(i, j),
                forall|i: int, j: int|
                    before.in_bounds(i, j) && j < y ==> (#[trigger] self@.cell(i, j)).current_state
                        == before.next_alive(i, j),
            decreases height - y,
        {
            let mut x: usize = 0;
            while x < width
                invariant
                    x <= width,
                    y < height,
                    self.wf(),
                    before.wf(),
                    width == before.width(),
                    height == before.height(),
                    self@.width() == before.width(),
                    self@.height() == before.height(),
                    forall|i: int, j: int|
                        before.in_bounds(i, j) ==> (#[trigger] self@.cell(i, j)).next_state == before.next_alive(
                            i,
                            j,
                        ),
                    forall|i: int, j: int|
                        before.in_bounds(i, j) && (j < y || (j == y && i < x)) ==> (
                        #[trigger] self@.cell(i, j)).current_state == before.next_alive(i, j),
                decreases width - x,
            {
                let cell = self.cell(x, y);
                let committed = Cell { current_state: cell.next_state, next_state: cell.next_state };
                proof {
                    lemma_put(self@, x as int, y as int, committed);
                }
                self.put(x, y, committed);
                x += 1;
            }
            y += 1;
        }
        proof {
            lemma_committed(self@, before);
        }
    }
}

/// Two boards of the same dimensions whose cells agree in their current
/// states give every cell the same number of live neighbours.
proof fn lemma_same_neighbors(a: Board, b: Board, x: int, y: int)
    requires
        a.wf(),
        b.wf(),
        a.width() == b.width(),
        a.height() == b.height(),
        forall|i: int, j: int|
            b.in_bounds(i, j) ==> (#[trigger] a.cell(i, j)).current_state == b.cell(i, j).current_state,
    ensures
        a.live_neighbors(x, y) == b.live_neighbors(x, y),
        a.alive(x, y) == b.alive(x, y),
{
    assert forall|i: int, j: int| a.alive(i, j) == b.alive(i, j) by {
        if b.in_bounds(i, j) {
            assert(a.cell(i, j).current_state == b.cell(i, j).current_state);
        }
    }
}

/// A board whose every cell holds, as both its states, what the rule gives
/// on `before` is the generation after `before`.
proof fn lemma_committed(after: Board, before: Board)
    requires
        after.wf(),
        before.wf(),
        after.width() == before.width(),
        after.height() == before.height(),
        forall|i: int, j: int|
            before.in_bounds(i, j) ==> (#[trigger] after.cell(i, j)).next_state == before.next_alive(i, j),
        forall|i: int, j: int|
            before.in_bounds(i, j) ==> (#[trigger] after.cell(i, j)).current_state == before.next_alive(
                i,
                j,
            ),
    ensures
        after == before.stepped(),
{
    let goal = before.stepped();
    assert(after.rows.len() == goal.rows.len());
    assert forall|j: int| 0 <= j < after.rows.len() implies after.rows[j] =~= goal.rows[j] by {
        assert(after.rows[j].len() == after.width());
        assert(before.rows[j].len() == before.width());
        assert forall|i: int| 0 <= i < after.rows[j].len() implies after.rows[j][i] == goal.rows[j][i] by {
            assert(before.in_bounds(i, j));
            assert(after.cell(i, j).current_state == before.next_alive(i, j));
        }
    }
    assert(after.rows =~= goal.rows);
}

} // verus!
