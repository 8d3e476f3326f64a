//! What holds of every board, stated over the model and proved.

use vstd::prelude::*;
use crate::board::Board;
use crate::board::Cell;

verus! {

/// Replacing one cell keeps the dimensions and every other cell.
pub proof fn lemma_put(b: Board, x: int, y: int, c: Cell)
    requires
        b.wf(),
        b.in_bounds(x, y),
    ensures
        b.put(x, y, c).wf(),
        b.put(x, y, c).width() == b.width(),
        b.put(x, y, c).height() == b.height(),
        forall|i: int, j: int|
            b.in_bounds(i, j) ==> #[trigger] b.put(x, y, c).cell(i, j) == if i == x && j == y {
                c
            } else {
                b.cell(i, j)
            },
{
    assert(b.rows[0].len() == b.width());
    assert(b.rows[y].len() == b.width());
}

/// A direct edit of one cell sets that cell's current state and nothing
/// else: the dimensions stay, every staged value stays, and every other
/// cell keeps its current state.
pub proof fn lemma_edit_is_local(b: Board, x: int, y: int, alive: bool)
    requires
        b.wf(),
        b.in_bounds(x, y),
    ensures
        b.with_state(x, y, alive).wf(),
        b.with_state(x, y, alive).width() == b.width(),
        b.with_state(x, y, alive).height() == b.height(),
        b.with_state(x, y, alive).alive(x, y) == alive,
        forall|i: int, j: int|
            b.in_bounds(i, j) ==> #[trigger] b.with_state(x, y, alive).staged(i, j) == b.staged(i, j),
        forall|i: int, j: int|
            !(i == x && j == y) ==> #[trigger] b.with_state(x, y, alive).alive(i, j) == b.alive(i, j),
{
    let c = Cell { current_state: alive, next_state: b.staged(x, y) };
    lemma_put(b, x, y, c);
    let e = b.with_state(x, y, alive);
    assert(e.cell(x, y) == c);
    assert forall|i: int, j: int| b.in_bounds(i, j) implies #[trigger] e.staged(i, j)
        == b.staged(i, j) by {
        assert(e.cell(i, j) == if i == x && j == y { c } else { b.cell(i, j) });
    }
    assert forall|i: int, j: int| !(i == x && j == y) implies #[trigger] e.alive(i, j)
        == b.alive(i, j) by {
        if b.in_bounds(i, j) {
            assert(e.cell(i, j) == b.cell(i, j));
        }
    }
}

/// No cell has more than eight live neighbours; a cell in a corner of the
/// board has at most three and a cell on an edge at most five, because
/// positions outside the board never count.
pub proof fn lemma_neighbor_bounds(b: Board, x: int, y: int)
    requires
        b.wf(),
        b.in_bounds(x, y),
    ensures
        0 <= b.live_neighbors(x, y) <= 8,
        (x == 0 || x == b.width() - 1 || y == 0 || y == b.height() - 1) ==> b.live_neighbors(x, y)
            <= 5,
        (x == 0 || x == b.width() - 1) && (y == 0 || y == b.height() - 1) ==> b.live_neighbors(x, y)
            <= 3,
{
}

/// An edit is seen at once by a count around any adjacent cell: bringing a
/// dead cell to life raises the count by one, killing a live cell lowers it
/// by one, and an edit that changes nothing leaves it as it was.
pub proof fn lemma_edit_is_visible(b: Board, x: int, y: int, nx: int, ny: int, alive: bool)
    requires
        b.wf(),
        b.in_bounds(x, y),
        b.in_bounds(nx, ny),
        x - 1 <= nx <= x + 1,
        y - 1 <= ny <= y + 1,
        !(nx == x && ny == y),
    ensures
        b.with_state(x, y, alive).live_neighbors(nx, ny) == b.live_neighbors(nx, ny) - b.live_at(x, y)
            + (if alive { 1int } else { 0int }),
{
    lemma_edit_is_local(b, x, y, alive);
}

/// A generation keeps the board well formed and its dimensions, gives every
/// cell the state that the rule derives from the board before, and leaves
/// that state in the staging slot too.
pub proof fn lemma_stepped(b: Board)
    requires
        b.wf(),
    ensures
        b.stepped().wf(),
        b.stepped().width() == b.width(),
        b.stepped().height() == b.height(),
        forall|i: int, j: int| #[trigger] b.stepped().alive(i, j) == (b.in_bounds(i, j) && b.next_alive(i, j)),
        forall|i: int, j: int| b.in_bounds(i, j) ==> #[trigger] b.stepped().staged(i, j) == b.next_alive(i, j),
{
    let s = b.stepped();
    assert(b.rows[0].len() == b.width());
    assert(s.rows[0].len() == b.width());
    assert forall|j: int| 0 <= j < s.height() implies (#[trigger] s.rows[j]).len() == s.width() by {
        assert(b.rows[j].len() == b.width());
    }
    assert forall|i: int, j: int| #[trigger] s.alive(i, j) == (b.in_bounds(i, j) && b.next_alive(i, j)) by {
        if b.in_bounds(i, j) {
            assert(b.rows[j].len() == b.width());
        }
    }
    assert forall|i: int, j: int| b.in_bounds(i, j) implies #[trigger] s.staged(i, j) == b.next_alive(i, j) by {
        assert(b.rows[j].len() == b.width());
    }
}

/// Any number of generations keeps the board well formed and its dimensions.
pub proof fn lemma_generations_keep_dimensions(b: Board, n: nat)
    requires
        b.wf(),
    ensures
        b.generations(n).wf(),
        b.generations(n).width() == b.width(),
        b.generations(n).height() == b.height(),
    decreases n,
{
    if n > 0 {
        lemma_stepped(b);
        lemma_generations_keep_dimensions(b.stepped(), (n - 1) as nat);
    }
}

/// Underpopulation: a live cell with fewer than two live neighbours, and so
/// one with none at all, is dead in the next generation.
pub proof fn lemma_underpopulation(b: Board, x: int, y: int)
    requires
        b.wf(),
        b.in_bounds(x, y),
        b.live_neighbors(x, y) < 2,
    ensures
        !b.stepped().alive(x, y),
{
    lemma_stepped(b);
}

/// A board whose only live cells form a two-by-two block is a still life:
/// after any number of generations its live cells are that same block.
pub proof fn lemma_block_is_still(b: Board, x: int, y: int, n: nat)
    requires
        b.wf(),
        b.is_block(x, y),
    ensures
        b.generations(n).wf(),
        b.generations(n).is_block(x, y),
    decreases n,
{
    if n > 0 {
        let s = b.stepped();
        lemma_stepped(b);
        assert forall|i: int, j: int| #[trigger] s.alive(i, j) <==> (x <= i <= x + 1 && y <= j <= y + 1) by {
            assert(s.alive(i, j) == (b.in_bounds(i, j) && b.next_alive(i, j)));
        }
        lemma_block_is_still(s, x, y, (n - 1) as nat);
    }
}

/// An edit that gives a cell the state it already has changes nothing.
pub proof fn lemma_edit_without_change(b: Board, x: int, y: int)
    requires
        b.wf(),
        b.in_bounds(x, y),
    ensures
        b.with_state(x, y, b.alive(x, y)) == b,
{
    let e = b.with_state(x, y, b.alive(x, y));
    assert(b.rows[y].len() == b.width());
    assert(e.rows[y] =~= b.rows[y]);
    assert(e.rows =~= b.rows);
}

} // verus!
