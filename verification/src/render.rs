//! Painting a grid into a pixel buffer, one square block per cell.

use vstd::prelude::*;
use crate::board::Board;
use crate::grid::Grid;

verus! {

/// The side of the square that one cell occupies, in pixels.
pub const CELL_SIZE: usize = 10;

/// The colour of a dead cell.
pub const DEAD_COLOR: u32 = 0x393E46;

/// The colour of a live cell.
pub const LIVE_COLOR: u32 = 0x00ADB5;

/// The colour in which a cell of the given state is painted.
pub open spec fn color_of(alive: bool) -> u32 {
    if alive {
        LIVE_COLOR
    } else {
        DEAD_COLOR
    }
}

/// The width of the picture of `b`, in pixels.
pub open spec fn pixel_width(b: Board) -> int {
    b.width() * CELL_SIZE
}

/// The height of the picture of `b`, in pixels.
pub open spec fn pixel_height(b: Board) -> int {
    b.height() * CELL_SIZE
}

/// Where the pixel in column `px` of row `py` lies in a buffer whose rows
/// are `row_len` pixels long.
pub open spec fn pixel_index(row_len: int, px: int, py: int) -> int {
    py * row_len + px
}

/// Whether the pixel `(qx, qy)` has been painted once the painting stands
/// at pixel `(px, py)` of the cell `(x, y)`: cells are painted row by row,
/// and the pixels of a cell row by row.
spec fn reached(qx: int, qy: int, x: int, y: int, px: int, py: int) -> bool {
    ||| qy < y * CELL_SIZE
    ||| (y * CELL_SIZE <= qy < (y + 1) * CELL_SIZE && qx < x * CELL_SIZE)
    ||| (x * CELL_SIZE <= qx < (x + 1) * CELL_SIZE && y * CELL_SIZE <= qy < py)
    ||| (qy == py && x * CELL_SIZE <= qx < px)
}

/// Whether every pixel of the picture that has been reached shows the colour
/// of the cell whose square it lies in.
spec fn painted_until(buffer: Seq<u32>, b: Board, x: int, y: int, px: int, py: int) -> bool {
    forall|qx: int, qy: int|
        0 <= qx < pixel_width(b) && 0 <= qy < pixel_height(b) && reached(qx, qy, x, y, px, py)
            ==> #[trigger] buffer[pixel_index(pixel_width(b), qx, qy)] == color_of(
            b.alive(qx / (CELL_SIZE as int), qy / (CELL_SIZE as int)),
        )
}

/// Whether `buffer` holds the picture of `b`: every pixel shows the colour
/// of the cell whose square it lies in.
pub open spec fn painted(buffer: Seq<u32>, b: Board) -> bool {
    forall|qx: int, qy: int|
        0 <= qx < pixel_width(b) && 0 <= qy < pixel_height(b) ==> #[trigger] buffer[pixel_index(
            pixel_width(b),
            qx,
            qy,
        )] == color_of(b.alive(qx / (CELL_SIZE as int), qy / (CELL_SIZE as int)))
}

/// A pixel of a picture lies inside the picture's part of the buffer.
proof fn lemma_pixel_inside(row_len: int, rows: int, px: int, py: int)
    requires
        0 <= px < row_len,
        0 <= py < rows,
    ensures
        0 <= py * row_len <= pixel_index(row_len, px, py) < row_len * rows,
{
    assert(py * row_len + row_len <= rows * row_len) by (nonlinear_arith)
        requires
            0 <= py < rows,
            0 < row_len,
    ;
    assert(0 <= py * row_len) by (nonlinear_arith)
        requires
            0 <= py,
            0 < row_len,
    ;
    assert(rows * row_len == row_len * rows) by (nonlinear_arith);
}

/// Two different pixels lie at different places of the buffer.
proof fn lemma_pixel_distinct(row_len: int, px: int, py: int, qx: int, qy: int)
    requires
        0 <= px < row_len,
        0 <= qx < row_len,
        px != qx || py != qy,
    ensures
        pixel_index(row_len, px, py) != pixel_index(row_len, qx, qy),
{
    if py < qy {
        assert(py * row_len + row_len <= qy * row_len) by (nonlinear_arith)
            requires
                py < qy,
                0 < row_len,
        ;
    } else if qy < py {
        assert(qy * row_len + row_len <= py * row_len) by (nonlinear_arith)
            requires
                qy < py,
                0 < row_len,
        ;
    }
}

/// Paints the grid into `buffer`, which holds the picture row by row: each
/// cell becomes a square of `CELL_SIZE` by `CELL_SIZE` pixels in the colour of
/// its state. What the buffer holds beyond the picture is left as it was.
pub fn update_buffer(buffer: &mut Vec<u32>, cell_grid: &Grid)
    requires
        cell_grid.wf(),
        pixel_width(cell_grid@) * pixel_height(cell_grid@) <= old(buffer).len(),
    ensures
        final(buffer).len() == old(buffer).len(),
        painted(final(buffer)@, cell_grid@),
        forall|i: int|
            pixel_width(cell_grid@) * pixel_height(cell_grid@) <= i < old(buffer).len()
                ==> final(buffer)@[i] == old(buffer)@[i],
{
    let ghost b = cell_grid@;
    let ghost before = buffer@;
    let ghost pw = pixel_width(b);
    let ghost ph = pixel_height(b);
    let width = cell_grid.width();
    let height = cell_grid.height();
    proof {
        assert(pw <= pw * ph && ph <= pw * ph) by (nonlinear_arith)
            requires
                pw >= 1,
                ph >= 1,
        ;
    }
    let row_len: usize = width * CELL_SIZE;
    let mut y: usize = 0;
    while y < height
        invariant
            y <= height,
            b == cell_grid@,
            cell_grid.wf(),
            width == b.width(),
            height == b.height(),
            pw == pixel_width(b),
            ph == pixel_height(b),
            row_len == pw,
            pw * ph <= buffer.len(),
            ph <= buffer.len(),
            buffer.len() == before.len(),
            painted_until(buffer@, b, 0, y as int, 0, y * CELL_SIZE),
            forall|i: int| pw * ph <= i < before.len() ==> buffer@[i] == before[i],
        decreases height - y,
    {
        let mut x: usize = 0;
        while x < width
            invariant
                x <= width,
                y < height,
                b == cell_grid@,
                cell_grid.wf(),
                width == b.width(),
                height == b.height(),
                pw == pixel_width(b),
                ph == pixel_height(b),
                row_len == pw,
                pw * ph <= buffer.len(),
                ph <= buffer.len(),
                buffer.len() == before.len(),
                painted_until(buffer@, b, x as int, y as int, x * CELL_SIZE, y * CELL_SIZE),
                forall|i: int| pw * ph <= i < before.len() ==> buffer@[i] == before[i],
            decreases width - x,
        {
            let color: u32 = if cell_grid.is_alive(x, y) {
                LIVE_COLOR
            } else {
                DEAD_COLOR
            };
            let y_start: usize = y * CELL_SIZE;
            let y_end: usize = y_start + CELL_SIZE;
            let x_start: usize = x * CELL_SIZE;
            let x_end: usize = x_start + CELL_SIZE;
            let mut py: usize = y_start;
            while py < y_end
                invariant
                    y_start <= py <= y_end,
                    x < width,
                    y < height,
                    y_start == y * CELL_SIZE,
                    y_end == y_start + CELL_SIZE,
                    x_start == x * CELL_SIZE,
                    x_end == x_start + CELL_SIZE,
                    color == color_of(b.alive(x as int, y as int)),
                    width == b.width(),
                    height == b.height(),
                    pw == pixel_width(b),
                    ph == pixel_height(b),
                    row_len == pw,
                    pw * ph <= buffer.len(),
                    buffer.len() == before.len(),
                    painted_until(buffer@, b, x as int, y as int, x_start as int, py as int),
                    forall|i: int| pw * ph <= i < before.len() ==> buffer@[i] == before[i],
                decreases y_end - py,
            {
                let mut px: usize = x_start;
                while px < x_end
                    invariant
                        x_start <= px <= x_end,
                        y_start <= py < y_end,
                        x < width,
                        y < height,
                        y_start == y * CELL_SIZE,
                        y_end == y_start + CELL_SIZE,
                        x_start == x * CELL_SIZE,
                        x_end == x_start + CELL_SIZE,
                        color == color_of(b.alive(x as int, y as int)),
                        width == b.width(),
                        height == b.height(),
                        pw == pixel_width(b),
                        ph == pixel_height(b),
                        row_len == pw,
                        pw * ph <= buffer.len(),
                        buffer.len() == before.len(),
                        painted_until(buffer@, b, x as int, y as int, px as int, py as int),
                        forall|i: int| pw * ph <= i < before.len() ==> buffer@[i] == before[i],
                    decreases x_end - px,
                {
                    proof {
                        lemma_pixel_inside(pw, ph, px as int, py as int);
                    }
                    let index: usize = py * row_len + px;
                    let ghost earlier = buffer@;
                    buffer[index] = color;
                    proof {
                        assert forall|qx: int, qy: int|
                            0 <= qx < pw && 0 <= qy < ph && reached(
                                qx,
                                qy,
                                x as int,
                                y as int,
                                px + 1,
                                py as int,
                            ) implies #[trigger] buffer@[pixel_index(pw, qx, qy)] == color_of(
                            b.alive(qx / (CELL_SIZE as int), qy / (CELL_SIZE as int)),
                        ) by {
                            if qx == px && qy == py {
                            } else {
                                lemma_pixel_distinct(pw, px as int, py as int, qx, qy);
                                lemma_pixel_inside(pw, ph, qx, qy);
                                assert(reached(qx, qy, x as int, y as int, px as int, py as int));
                                assert(earlier[pixel_index(pw, qx, qy)] == color_of(
                                    b.alive(qx / (CELL_SIZE as int), qy / (CELL_SIZE as int)),
                                ));
                            }
                        }
                    }
                    px += 1;
                }
                py += 1;
            }
            x += 1;
        }
        y += 1;
    }
}

} // verus!
