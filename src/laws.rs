//! Laws of the simulation and of the interaction state machine, proved over
//! the models that the functions' contracts use.

use vstd::prelude::*;
use crate::board::{
    alive, all_dead, generations, in_bounds, index_of, lemma_coords_of, lemma_index_of,
    lemma_next_gen_at, live, neighbor_count, next_gen, BOARD_SIZE, LINE_SIZE,
};
use crate::eadk::key_bit;
use crate::game::{mode_after, next_view, AppState, GameView};
use crate::key::{DOWN, EXE, LEFT, RIGHT, TOOLBOX, UP, VAR, XNT};

verus! {

/// Conway's rule: a dead cell with exactly 3 live neighbors is born; a live
/// cell with 2 or 3 live neighbors stays alive; every other live cell dies.
pub proof fn law_conway_rule(cells: Seq<bool>, x: int, y: int)
    requires
        in_bounds(x, y),
    ensures
        next_gen(cells)[index_of(x, y)] == (if alive(cells, x, y) {
            neighbor_count(cells, x, y) == 2 || neighbor_count(cells, x, y) == 3
        } else {
            neighbor_count(cells, x, y) == 3
        }),
{
    lemma_next_gen_at(cells, x, y);
}

/// A coordinate off the board never counts as a live neighbor: it reads as
/// dead, with no wrapping around the edges.
pub proof fn law_off_board_is_dead(cells: Seq<bool>, x: int, y: int)
    requires
        !in_bounds(x, y),
    ensures
        live(cells, x, y) == 0,
{
}

/// A corner cell has only the three neighbors that lie on the board.
pub proof fn law_corner_neighbors(cells: Seq<bool>)
    ensures
        neighbor_count(cells, 0, 0) == live(cells, 1, 0) + live(cells, 0, 1) + live(cells, 1, 1),
{
}

/// The generation after an all-dead board is all dead.
proof fn lemma_dead_step(cells: Seq<bool>)
    requires
        cells.len() == BOARD_SIZE,
        all_dead(cells),
    ensures
        next_gen(cells).len() == BOARD_SIZE,
        all_dead(next_gen(cells)),
{
    assert forall|i: int| 0 <= i < BOARD_SIZE implies !next_gen(cells)[i] by {
        lemma_index_of(i);
        let (x, y) = (i % LINE_SIZE as int, i / LINE_SIZE as int);
        lemma_next_gen_at(cells, x, y);
        assert forall|a: int, b: int| in_bounds(a, b) implies !cells[index_of(a, b)] by {
            lemma_coords_of(a, b);
        }
    }
}

/// An all-dead board stays all dead for any number of generations.
pub proof fn law_dead_board_stays_dead(cells: Seq<bool>, n: nat)
    requires
        cells.len() == BOARD_SIZE,
        all_dead(cells),
    ensures
        generations(cells, n).len() == BOARD_SIZE,
        all_dead(generations(cells, n)),
    decreases n,
{
    if n > 0 {
        law_dead_board_stays_dead(cells, (n - 1) as nat);
        lemma_dead_step(generations(cells, (n - 1) as nat));
    }
}

/// The board holding exactly the 2x2 block with top left corner `(x, y)`.
pub open spec fn is_block(cells: Seq<bool>, x: int, y: int) -> bool {
    &&& cells.len() == BOARD_SIZE
    &&& in_bounds(x, y)
    &&& in_bounds(x + 1, y + 1)
    &&& forall|a: int, b: int|
        in_bounds(a, b) ==> #[trigger] cells[index_of(a, b)] == (x <= a <= x + 1 && y <= b <= y
            + 1)
}

/// A 2x2 block is a still life: it is its own next generation.
proof fn lemma_block_step(cells: Seq<bool>, x: int, y: int)
    requires
        is_block(cells, x, y),
    ensures
        next_gen(cells) == cells,
{
    assert forall|a: int, b: int| #[trigger] alive(cells, a, b) == (in_bounds(a, b) && x <= a <= x + 1 && y <= b <= y + 1) by {
        if in_bounds(a, b) {
            lemma_coords_of(a, b);
        }
    }
    assert forall|i: int| 0 <= i < BOARD_SIZE implies next_gen(cells)[i] == cells[i] by {
        lemma_index_of(i);
        let (a, b) = (i % LINE_SIZE as int, i / LINE_SIZE as int);
        lemma_next_gen_at(cells, a, b);
        assert(cells[index_of(a, b)] == alive(cells, a, b));
    }
    assert(next_gen(cells) =~= cells);
}

/// A 2x2 block is unchanged after any number of generations.
pub proof fn law_block_still_life(cells: Seq<bool>, x: int, y: int, n: nat)
    requires
        is_block(cells, x, y),
    ensures
        generations(cells, n) == cells,
    decreases n,
{
    if n > 0 {
        law_block_still_life(cells, x, y, (n - 1) as nat);
        lemma_block_step(cells, x, y);
    }
}


/// Whether a snapshot presses none of the mode keys.
pub open spec fn no_mode_key(keys: u64) -> bool {
    !key_bit(keys, XNT) && !key_bit(keys, VAR) && !key_bit(keys, TOOLBOX)
}

/// In the editor, moving the cursor left from column 0 leaves it at column 0.
pub proof fn law_left_at_first_column(g: GameView, keys: u64)
    requires
        mode_after(g.state, keys) == AppState::Editor,
        g.pointer.0 == 0,
        key_bit(keys, LEFT),
        !key_bit(keys, RIGHT),
    ensures
        next_view(g, keys).pointer.0 == 0,
{
}

/// In the editor, toggling the cell under the cursor twice, without moving,
/// gives back the board and the cursor as they were.
pub proof fn law_toggle_twice(g: GameView, keys: u64)
    requires
        g.cells.len() == BOARD_SIZE,
        in_bounds(g.pointer.0 as int, g.pointer.1 as int),
        g.state == AppState::Editor,
        no_mode_key(keys),
        key_bit(keys, EXE),
        !key_bit(keys, UP) && !key_bit(keys, DOWN) && !key_bit(keys, LEFT) && !key_bit(keys, RIGHT),
    ensures
        next_view(next_view(g, keys), keys).cells == g.cells,
        next_view(next_view(g, keys), keys).pointer == g.pointer,
        next_view(next_view(g, keys), keys).state == AppState::Editor,
{
    let (x, y) = (g.pointer.0 as int, g.pointer.1 as int);
    lemma_coords_of(x, y);
    let once = next_view(g, keys);
    assert(once.cells[index_of(x, y)] == !g.cells[index_of(x, y)]);
    assert(next_view(once, keys).cells =~= g.cells);
}

/// The game after each snapshot of `keys` in turn.
pub open spec fn run_ticks(g: GameView, keys: Seq<u64>) -> GameView
    decreases keys.len(),
{
    if keys.len() == 0 {
        g
    } else {
        run_ticks(next_view(g, keys[0]), keys.drop_first())
    }
}

/// The number of presses of the advance key in `keys`: the snapshots where it
/// is down and was not down in the snapshot before (`held` for the first).
pub open spec fn presses(held: bool, keys: Seq<u64>) -> nat
    decreases keys.len(),
{
    if keys.len() == 0 {
        0
    } else {
        (if key_bit(keys[0], EXE) && !held {
            1nat
        } else {
            0nat
        }) + presses(key_bit(keys[0], EXE), keys.drop_first())
    }
}

/// One more generation, taken first.
proof fn lemma_generations_first(cells: Seq<bool>, n: nat)
    ensures
        generations(next_gen(cells), n) == generations(cells, n + 1),
    decreases n,
{
    if n > 0 {
        lemma_generations_first(cells, (n - 1) as nat);
        assert(generations(next_gen(cells), n) == next_gen(generations(next_gen(cells), (n - 1) as nat)));
        assert(generations(cells, n + 1) == next_gen(generations(cells, n)));
    } else {
        assert(generations(cells, 1) == next_gen(generations(cells, 0)));
    }
}

/// In step-by-step mode, with no mode key pressed, a run of iterations
/// advances the board by exactly one generation per press of the advance
/// key, however many iterations each press is held for.
pub proof fn law_one_generation_per_press(g: GameView, keys: Seq<u64>)
    requires
        g.state == AppState::StepByStep,
        forall|i: int| 0 <= i < keys.len() ==> no_mode_key(#[trigger] keys[i]),
    ensures
        run_ticks(g, keys).state == AppState::StepByStep,
        run_ticks(g, keys).cells == generations(g.cells, presses(g.exe_held, keys)),
    decreases keys.len(),
{
    if keys.len() > 0 {
        let n = next_view(g, keys[0]);
        let rest = keys.drop_first();
        assert forall|i: int| 0 <= i < rest.len() implies no_mode_key(#[trigger] rest[i]) by {
            assert(rest[i] == keys[i + 1]);
        }
        law_one_generation_per_press(n, rest);
        if key_bit(keys[0], EXE) && !g.exe_held {
            lemma_generations_first(g.cells, presses(n.exe_held, rest));
        }
    }
}

} // verus!
