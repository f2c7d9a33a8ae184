//! The renderer adapter: each cell is drawn as a square of uniform color.

use vstd::prelude::*;
use crate::board::{alive, get, in_bounds, Board, CELL_SIZE};
use crate::eadk::{rgb565_of, Color, Rect};

verus! {

/// The square of pixels covered by cell `(x, y)`.
pub open spec fn cell_rect(x: u16, y: u16) -> Rect {
    Rect {
        x: (x * CELL_SIZE) as u16,
        y: (y * CELL_SIZE) as u16,
        width: CELL_SIZE,
        height: CELL_SIZE,
    }
}

/// The color of a live cell (black) or of a dead one (white).
pub open spec fn cell_color(is_alive: bool) -> Color {
    if is_alive {
        Color { rgb565: rgb565_of(0, 0, 0) as u16 }
    } else {
        Color { rgb565: rgb565_of(255, 255, 255) as u16 }
    }
}

/// The color of the cursor highlight (red).
pub open spec fn cursor_color() -> Color {
    Color { rgb565: rgb565_of(255, 0, 0) as u16 }
}

/// The fill that shows cell `(x, y)` as it is on the board.
pub open spec fn cell_draw(cells: Seq<bool>, x: u16, y: u16) -> (Rect, Color) {
    (cell_rect(x, y), cell_color(alive(cells, x as int, y as int)))
}

/// The square of cell `(x, y)`.
pub fn cell_square(pos: (u16, u16)) -> (r: Rect)
    requires
        in_bounds(pos.0 as int, pos.1 as int),
    ensures
        r == cell_rect(pos.0, pos.1),
{
    Rect::new(pos.0 * CELL_SIZE, pos.1 * CELL_SIZE, CELL_SIZE, CELL_SIZE)
}

/// The fill that shows cell `(x, y)` in its board color.
pub fn draw_cell(board: &Board, pos: (u16, u16)) -> (r: (Rect, Color))
    requires
        in_bounds(pos.0 as int, pos.1 as int),
    ensures
        r == cell_draw(board@, pos.0, pos.1),
{
    let color = if get(board, pos.0 as usize, pos.1 as usize) {
        Color::black()
    } else {
        Color::white()
    };
    (cell_square(pos), color)
}

} // verus!
