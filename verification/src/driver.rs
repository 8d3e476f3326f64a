//! The decisions of the driver loop: what one tick of input does to a grid.

use vstd::prelude::*;
use crate::board::Board;
use crate::grid::Grid;
use crate::laws::lemma_edit_is_local;
use crate::laws::lemma_edit_without_change;

verus! {

/// What the input devices reported for one tick.
#[derive(Clone, Copy, Debug)]
pub struct Input {
    /// Whether a generation was asked for.
    pub step: bool,
    /// The column and row of the cell under the pointer, if the pointer is
    /// over the window.
    pub pointer: Option<(usize, usize)>,
    /// Whether the button that brings a cell to life is held.
    pub left: bool,
    /// Whether the button that kills a cell is held.
    pub right: bool,
}

impl Input {
    /// Whether the pointer is over a cell of `b`.
    pub open spec fn points_into(self, b: Board) -> bool {
        match self.pointer {
            Some((x, y)) => b.in_bounds(x as int, y as int),
            None => false,
        }
    }

    /// Whether the buttons of this input change the state of the cell under
    /// the pointer. Where both buttons are held the cell ends up dead.
    pub open spec fn edits(self, b: Board) -> bool {
        match self.pointer {
            Some((x, y)) => b.in_bounds(x as int, y as int) && if self.right {
                b.alive(x as int, y as int)
            } else {
                self.left && !b.alive(x as int, y as int)
            },
            None => false,
        }
    }
}

/// The board after the pointer edits of `input`: the cell under the pointer
/// is brought to life if the left button is held and then killed if the right
/// one is. A pointer that is not over a cell of the board edits nothing.
pub open spec fn edited(b: Board, input: Input) -> Board {
    match input.pointer {
        Some((x, y)) => if b.in_bounds(x as int, y as int) {
            let lit = if input.left {
                b.with_state(x as int, y as int, true)
            } else {
                b
            };
            if input.right {
                lit.with_state(x as int, y as int, false)
            } else {
                lit
            }
        } else {
            b
        },
        None => b,
    }
}

/// The board after one tick: first the generation, if one was asked for, then
/// the pointer edits.
pub open spec fn ticked(b: Board, input: Input) -> Board {
    edited(
        if input.step {
            b.stepped()
        } else {
            b
        },
        input,
    )
}

/// The board after the ticks of `inputs`, in order.
pub open spec fn run(b: Board, inputs: Seq<Input>) -> Board
    decreases inputs.len(),
{
    if inputs.len() == 0 {
        b
    } else {
        ticked(run(b, inputs.drop_last()), inputs.last())
    }
}

/// Applies one tick of input to the grid: at most one generation, then the
/// pointer edits. A pointer outside the grid is ignored.
pub fn tick(grid: &mut Grid, input: Input)
    requires
        old(grid).wf(),
    ensures
        final(grid).wf(),
        final(grid)@ == ticked(old(grid)@, input),
        final(grid)@.width() == old(grid)@.width(),
        final(grid)@.height() == old(grid)@.height(),
        !input.step && !input.edits(old(grid)@) ==> final(grid)@ == old(grid)@,
{
    proof {
        if !input.step && !input.edits(grid@) {
            lemma_quiet_tick(grid@, input);
        }
    }
    if input.step {
        grid.step();
    }
    if let Some((x, y)) = input.pointer {
        if grid.contains(x, y) {
            if input.left {
                grid.set_alive(x, y);
            }
            if input.right {
                grid.set_dead(x, y);
            }
        }
    }
}

/// A tick without a step trigger and without an edit that changes a cell
/// leaves the board as it was.
pub proof fn lemma_quiet_tick(b: Board, input: Input)
    requires
        b.wf(),
        !input.step,
        !input.edits(b),
    ensures
        ticked(b, input) == b,
{
    if input.points_into(b) {
        let (x, y) = input.pointer.unwrap();
        let (x, y) = (x as int, y as int);
        lemma_edit_without_change(b, x, y);
        if input.left && input.right {
            let lit = b.with_state(x, y, true);
            lemma_edit_is_local(b, x, y, true);
            assert(b.rows[y].len() == b.width());
            assert(lit.with_state(x, y, false).rows[y] =~= b.rows[y]);
            assert(lit.with_state(x, y, false).rows =~= b.rows);
        }
    }
}

/// However many ticks pass, as long as none of them carries a step trigger
/// or an edit that changes a cell, the board stays as it was: every cell
/// keeps its current state.
pub proof fn lemma_quiet_run(b: Board, inputs: Seq<Input>)
    requires
        b.wf(),
        forall|k: int| 0 <= k < inputs.len() ==> !(#[trigger] inputs[k]).step && !inputs[k].edits(b),
    ensures
        run(b, inputs) == b,
    decreases inputs.len(),
{
    if inputs.len() > 0 {
        lemma_quiet_run(b, inputs.drop_last());
        lemma_quiet_tick(b, inputs.last());
    }
}

} // verus!
