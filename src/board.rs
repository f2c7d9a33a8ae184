//! The board: a fixed grid of cells, each alive or dead, stored row by row,
//! and the mathematical model of Conway's rule over it.

use vstd::prelude::*;
use crate::eadk::{SCREEN_HEIGHT, SCREEN_WIDTH};

verus! {

/// Side (in pixels) of the square drawn for one cell.
pub const CELL_SIZE: u16 = 4;

/// Number of columns of the board (cells along x).
pub const LINE_SIZE: u16 = SCREEN_WIDTH / CELL_SIZE;

/// Number of rows of the board (cells along y).
pub const COLUMN_SIZE: u16 = SCREEN_HEIGHT / CELL_SIZE;

/// Number of cells of the board: `LINE_SIZE * COLUMN_SIZE`.
pub const BOARD_SIZE: usize = 4800;

/// The board: cell `(x, y)` is at `to_index(x, y)`, `true` when alive.
pub type Board = [bool; BOARD_SIZE];

/// Whether `(x, y)` lies on the board.
pub open spec fn in_bounds(x: int, y: int) -> bool {
    0 <= x < LINE_SIZE as int && 0 <= y < COLUMN_SIZE as int
}

/// Row-major position of cell `(x, y)`.
pub open spec fn index_of(x: int, y: int) -> int {
    x + y * LINE_SIZE as int
}

/// Whether cell `(x, y)` is alive; every coordinate off the board reads as dead.
pub open spec fn alive(cells: Seq<bool>, x: int, y: int) -> bool {
    in_bounds(x, y) && cells[index_of(x, y)]
}

/// 1 for a live cell, 0 for a dead one or a coordinate off the board.
pub open spec fn live(cells: Seq<bool>, x: int, y: int) -> int {
    if alive(cells, x, y) {
        1
    } else {
        0
    }
}

/// The number of live cells among the 8 around `(x, y)`.
pub open spec fn neighbor_count(cells: Seq<bool>, x: int, y: int) -> int {
    live(cells, x - 1, y - 1) + live(cells, x, y - 1) + live(cells, x + 1, y - 1) + live(
        cells,
        x - 1,
        y,
    ) + live(cells, x + 1, y) + live(cells, x - 1, y + 1) + live(cells, x, y + 1) + live(
        cells,
        x + 1,
        y + 1,
    )
}

/// What happens to cell `(x, y)` in the next generation: `Some(true)` for a
/// birth, `Some(false)` for a death, `None` when it keeps its state.
pub open spec fn transition(cells: Seq<bool>, x: int, y: int) -> Option<bool> {
    let n = neighbor_count(cells, x, y);
    if n == 3 && !alive(cells, x, y) {
        Some(true)
    } else if n != 2 && n != 3 && alive(cells, x, y) {
        Some(false)
    } else {
        None
    }
}

/// Whether cell `(x, y)` is alive in the next generation.
pub open spec fn next_alive(cells: Seq<bool>, x: int, y: int) -> bool {
    match transition(cells, x, y) {
        Some(b) => b,
        None => alive(cells, x, y),
    }
}

/// The next generation of a whole board.
pub open spec fn next_gen(cells: Seq<bool>) -> Seq<bool> {
    Seq::new(
        BOARD_SIZE as nat,
        |i: int| next_alive(cells, i % LINE_SIZE as int, i / LINE_SIZE as int),
    )
}

/// The board after `n` generations.
pub open spec fn generations(cells: Seq<bool>, n: nat) -> Seq<bool>
    decreases n,
{
    if n == 0 {
        cells
    } else {
        next_gen(generations(cells, (n - 1) as nat))
    }
}

/// The board with every cell dead.
pub open spec fn all_dead(cells: Seq<bool>) -> bool {
    forall|i: int| 0 <= i < cells.len() ==> !cells[i]
}

/// The board size is the number of columns times the number of rows.
pub proof fn lemma_board_dims()
    ensures
        LINE_SIZE == 80,
        COLUMN_SIZE == 60,
        BOARD_SIZE == LINE_SIZE as int * COLUMN_SIZE as int,
{
}

/// Every position of the board is the position of exactly one coordinate.
pub proof fn lemma_index_of(i: int)
    requires
        0 <= i < BOARD_SIZE,
    ensures
        in_bounds(i % LINE_SIZE as int, i / LINE_SIZE as int),
        index_of(i % LINE_SIZE as int, i / LINE_SIZE as int) == i,
{
    lemma_board_dims();
    assert(i % 80 + (i / 80) * 80 == i && 0 <= i % 80 < 80 && 0 <= i / 80 < 60) by (nonlinear_arith)
        requires
            0 <= i < 4800,
    ;
}

/// The coordinate at a position is the one it was computed from.
pub proof fn lemma_coords_of(x: int, y: int)
    requires
        in_bounds(x, y),
    ensures
        0 <= index_of(x, y) < BOARD_SIZE,
        index_of(x, y) % LINE_SIZE as int == x,
        index_of(x, y) / LINE_SIZE as int == y,
{
    lemma_board_dims();
    assert((x + y * 80) % 80 == x && (x + y * 80) / 80 == y && 0 <= x + y * 80 < 4800) by (nonlinear_arith)
        requires
            0 <= x < 80,
            0 <= y < 60,
    ;
}

/// The next generation, read at a coordinate.
pub proof fn lemma_next_gen_at(cells: Seq<bool>, x: int, y: int)
    requires
        in_bounds(x, y),
    ensures
        next_gen(cells)[index_of(x, y)] == next_alive(cells, x, y),
{
    lemma_coords_of(x, y);
}

/// A board with every cell dead.
pub fn new_board() -> (b: Board)
    ensures
        all_dead(b@),
{
    [false; BOARD_SIZE]
}

/// The row-major position of `(x, y)`.
pub fn to_index(x: usize, y: usize) -> (i: usize)
    requires
        in_bounds(x as int, y as int),
    ensures
        i == index_of(x as int, y as int),
        i < BOARD_SIZE,
{
    proof {
        lemma_coords_of(x as int, y as int);
    }
    x + y * (LINE_SIZE as usize)
}

/// Whether cell `(x, y)` is alive.
pub fn get(board: &Board, x: usize, y: usize) -> (r: bool)
    requires
        in_bounds(x as int, y as int),
    ensures
        r == alive(board@, x as int, y as int),
{
    board[to_index(x, y)]
}

/// Sets cell `(x, y)` to `v`, leaving every other cell as it was.
pub fn set_cell(board: &mut Board, x: usize, y: usize, v: bool)
    requires
        in_bounds(x as int, y as int),
    ensures
        final(board)@ == old(board)@.update(index_of(x as int, y as int), v),
{
    let i = to_index(x, y);
    board[i] = v;
}

/// 1 when `(x, y)` is a live cell of the board, 0 when it is dead or off the
/// board (no wrapping around the edges).
pub fn get_cell(board: &Board, pos: (i16, i16)) -> (r: u8)
    ensures
        r as int == live(board@, pos.0 as int, pos.1 as int),
{
    let (x, y) = pos;
    if x < 0 || y < 0 || x > LINE_SIZE as i16 - 1 || y > COLUMN_SIZE as i16 - 1 {
        0
    } else if board[to_index(x as usize, y as usize)] {
        1
    } else {
        0
    }
}

} // verus!
