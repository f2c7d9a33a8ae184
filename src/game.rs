//! The interaction state machine: one call per loop iteration turns a
//! keyboard snapshot into the next mode, cursor and board, and the fills that
//! bring the screen up to date.

use vstd::prelude::*;
use crate::board::{
    alive, get, in_bounds, index_of, new_board, next_gen, set_cell, all_dead, Board, COLUMN_SIZE,
    LINE_SIZE,
};
use crate::eadk::{key_bit, Color, Rect, State};
use crate::engine::{run_once, changed};
use crate::key::{DOWN, EXE, LEFT, MINUS, PLUS, RIGHT, TOOLBOX, UP, VAR, XNT};
use crate::render::{cell_draw, cell_rect, cell_square, cursor_color, draw_cell};

verus! {

/// The mode of the application.
#[derive(Clone, Copy, Debug, PartialEq, Eq, Structural)]
pub enum AppState {
    /// The cursor moves and edits cells; the simulation is paused.
    Editor,
    /// One generation per iteration.
    Running,
    /// One generation per press of the advance key.
    StepByStep,
}

/// The whole state of the application, owned by the main loop.
pub struct Game {
    pub board: Board,
    pub state: AppState,
    /// The cursor: column and row of the edited cell.
    pub pointer: (u16, u16),
    /// Whether the advance key was down at the previous iteration.
    pub exe_held: bool,
}

/// What a game holds, with the board as a sequence of cells.
pub struct GameView {
    pub cells: Seq<bool>,
    pub state: AppState,
    pub pointer: (u16, u16),
    pub exe_held: bool,
}

impl View for Game {
    type V = GameView;

    open spec fn view(&self) -> GameView {
        GameView {
            cells: self.board@,
            state: self.state,
            pointer: self.pointer,
            exe_held: self.exe_held,
        }
    }
}

/// The work of one iteration for the screen: the fills to push, in order,
/// and the pause before the next iteration.
pub struct Frame {
    pub draws: Vec<(Rect, Color)>,
    pub delay_ms: u32,
}

/// The mode after the mode keys of a snapshot; the editor key wins over the
/// running key, which wins over the step key.
pub open spec fn mode_after(mode: AppState, keys: u64) -> AppState {
    if key_bit(keys, XNT) {
        AppState::Editor
    } else if key_bit(keys, VAR) {
        AppState::Running
    } else if key_bit(keys, TOOLBOX) {
        AppState::StepByStep
    } else {
        mode
    }
}

/// Whether the snapshot leaves the editor view of the cursor behind: a switch
/// to running or to step-by-step mode.
pub open spec fn switches_to_play(keys: u64) -> bool {
    !key_bit(keys, XNT) && (key_bit(keys, VAR) || key_bit(keys, TOOLBOX))
}

/// The cell under the cursor after an edit: the toggle key flips it, else the
/// plus key sets it alive, else the minus key sets it dead.
pub open spec fn edited(v: bool, keys: u64) -> bool {
    if key_bit(keys, EXE) {
        !v
    } else if key_bit(keys, PLUS) {
        true
    } else if key_bit(keys, MINUS) {
        false
    } else {
        v
    }
}

/// The cursor after the up and down keys; a move against an edge does nothing.
pub open spec fn moved_vertically(p: (u16, u16), keys: u64) -> (u16, u16) {
    if key_bit(keys, UP) && p.1 > 0 {
        (p.0, (p.1 - 1) as u16)
    } else if key_bit(keys, DOWN) && p.1 < COLUMN_SIZE - 1 {
        (p.0, (p.1 + 1) as u16)
    } else {
        p
    }
}

/// The cursor after the left and right keys; a move against an edge does nothing.
pub open spec fn moved_horizontally(p: (u16, u16), keys: u64) -> (u16, u16) {
    if key_bit(keys, LEFT) && p.0 > 0 {
        ((p.0 - 1) as u16, p.1)
    } else if key_bit(keys, RIGHT) && p.0 < LINE_SIZE - 1 {
        ((p.0 + 1) as u16, p.1)
    } else {
        p
    }
}

/// The cursor after one editor iteration.
pub open spec fn cursor_after(p: (u16, u16), keys: u64) -> (u16, u16) {
    moved_horizontally(moved_vertically(p, keys), keys)
}

/// Whether the iteration advances the simulation: always while running, and
/// in step-by-step mode only on a rising edge of the advance key.
pub open spec fn advances(g: GameView, keys: u64) -> bool {
    match mode_after(g.state, keys) {
        AppState::Editor => false,
        AppState::Running => true,
        AppState::StepByStep => key_bit(keys, EXE) && !g.exe_held,
    }
}

/// The game after one iteration with keyboard snapshot `keys`.
pub open spec fn next_view(g: GameView, keys: u64) -> GameView {
    let mode = mode_after(g.state, keys);
    let (px, py) = (g.pointer.0 as int, g.pointer.1 as int);
    GameView {
        cells: if mode == AppState::Editor {
            g.cells.update(index_of(px, py), edited(alive(g.cells, px, py), keys))
        } else if advances(g, keys) {
            next_gen(g.cells)
        } else {
            g.cells
        },
        state: mode,
        pointer: if mode == AppState::Editor {
            cursor_after(g.pointer, keys)
        } else {
            g.pointer
        },
        exe_held: key_bit(keys, EXE),
    }
}

/// Whether `d` is a dirty set from `before` to `after`: each coordinate of a
/// changed cell once, and nothing else.
pub open spec fn is_dirty_set(before: Seq<bool>, after: Seq<bool>, d: Seq<(usize, usize)>) -> bool {
    &&& d.no_duplicates()
    &&& forall|k: int| 0 <= k < d.len() ==> in_bounds(#[trigger] d[k].0 as int, d[k].1 as int)
    &&& forall|x: int, y: int|
        in_bounds(x, y) ==> (d.contains((x as usize, y as usize)) <==> changed(before, after, x, y))
}

/// The fills that show the cells of `d` as they are in `cells`.
pub open spec fn redraws(cells: Seq<bool>, d: Seq<(usize, usize)>) -> Seq<(Rect, Color)> {
    d.map_values(|c: (usize, usize)| cell_draw(cells, c.0 as u16, c.1 as u16))
}

/// The fills of an editor iteration: the cell left by each move of the cursor
/// in its board color, then the highlight on the cursor.
pub open spec fn editor_draws(cells: Seq<bool>, p: (u16, u16), keys: u64) -> Seq<(Rect, Color)> {
    let p1 = moved_vertically(p, keys);
    let p2 = moved_horizontally(p1, keys);
    (if p1 != p {
        seq![cell_draw(cells, p.0, p.1)]
    } else {
        Seq::empty()
    }) + (if p2 != p1 {
        seq![cell_draw(cells, p1.0, p1.1)]
    } else {
        Seq::empty()
    }) + seq![(cell_rect(p2.0, p2.1), cursor_color())]
}

/// The frame of one iteration: on a switch to play, the cursor cell in its
/// board color first; then the editor's fills, or the redraw of the cells
/// that the generation changed; and the pause of the mode.
pub open spec fn frame_of(g: GameView, keys: u64, draws: Seq<(Rect, Color)>, delay_ms: u32) -> bool {
    let n = next_view(g, keys);
    let pre = if switches_to_play(keys) {
        seq![cell_draw(g.cells, g.pointer.0, g.pointer.1)]
    } else {
        Seq::empty()
    };
    if n.state == AppState::Editor {
        draws == pre + editor_draws(n.cells, g.pointer, keys) && delay_ms == 50
    } else if advances(g, keys) {
        (exists|d: Seq<(usize, usize)>|
            is_dirty_set(g.cells, n.cells, d) && draws == pre + redraws(n.cells, d)) && delay_ms == (
        if n.state == AppState::Running {
            10u32
        } else {
            50u32
        })
    } else {
        draws == pre && delay_ms == 0
    }
}

impl Game {
    /// The cursor is on the board.
    pub open spec fn wf(&self) -> bool {
        in_bounds(self.pointer.0 as int, self.pointer.1 as int)
    }

    /// The initial game: editor mode, an all-dead board, the cursor at the
    /// center.
    pub fn new() -> (g: Game)
        ensures
            g.wf(),
            g.state == AppState::Editor,
            all_dead(g.board@),
            g.pointer == (LINE_SIZE / 2, COLUMN_SIZE / 2),
            !g.exe_held,
    {
        Game {
            board: new_board(),
            state: AppState::Editor,
            pointer: (LINE_SIZE / 2, COLUMN_SIZE / 2),
            exe_held: false,
        }
    }

    /// The editor part of an iteration: edit the cell under the cursor, move
    /// the cursor, and draw what that changed on the screen.
    fn edit(&mut self, keys: &State, draws: &mut Vec<(Rect, Color)>)
        requires
            old(self).wf(),
        ensures
            final(self).wf(),
            final(self).state == old(self).state,
            final(self).exe_held == old(self).exe_held,
            final(self).board@ == old(self).board@.update(
                index_of(old(self).pointer.0 as int, old(self).pointer.1 as int),
                edited(alive(old(self).board@, old(self).pointer.0 as int, old(self).pointer.1 as int), keys.0),
            ),
            final(self).pointer == cursor_after(old(self).pointer, keys.0),
            final(draws)@ == old(draws)@ + editor_draws(final(self).board@, old(self).pointer, keys.0),
    {
        let (px, py) = self.pointer;
        let current = get(&self.board, px as usize, py as usize);
        if keys.key_down(EXE) {
            set_cell(&mut self.board, px as usize, py as usize, !current);
        } else if keys.key_down(PLUS) {
            set_cell(&mut self.board, px as usize, py as usize, true);
        } else if keys.key_down(MINUS) {
            set_cell(&mut self.board, px as usize, py as usize, false);
        } else {
            assert(self.board@ =~= self.board@.update(index_of(px as int, py as int), current));
        }
        let ghost start = draws@;
        if keys.key_down(UP) && self.pointer.1 > 0 {
            draws.push(draw_cell(&self.board, self.pointer));
            self.pointer.1 = self.pointer.1 - 1;
        } else if keys.key_down(DOWN) && self.pointer.1 < COLUMN_SIZE - 1 {
            draws.push(draw_cell(&self.board, self.pointer));
            self.pointer.1 = self.pointer.1 + 1;
        }
        let ghost mid = draws@;
        if keys.key_down(LEFT) && self.pointer.0 > 0 {
            draws.push(draw_cell(&self.board, self.pointer));
            self.pointer.0 = self.pointer.0 - 1;
        } else if keys.key_down(RIGHT) && self.pointer.0 < LINE_SIZE - 1 {
            draws.push(draw_cell(&self.board, self.pointer));
            self.pointer.0 = self.pointer.0 + 1;
        }
        draws.push((cell_square(self.pointer), Color::red()));
        proof {
            let p = (px, py);
            let p1 = moved_vertically(p, keys.0);
            let e = editor_draws(self.board@, p, keys.0);
            assert(draws@ =~= start + e);
        }
    }

    /// One iteration of the main loop on keyboard snapshot `keys`: switch
    /// mode, then edit, advance one generation, or wait for the next press,
    /// as the mode says. The frame holds the fills that bring the screen up
    /// to date and the pause before the next iteration.
    pub fn tick(&mut self, keys: &State) -> (f: Frame)
        requires
            old(self).wf(),
        ensures
            final(self).wf(),
            final(self)@ == next_view(old(self)@, keys.0),
            frame_of(old(self)@, keys.0, f.draws@, f.delay_ms),
    {
        let ghost g = self@;
        let mut draws: Vec<(Rect, Color)> = Vec::new();
        if keys.key_down(XNT) {
            self.state = AppState::Editor;
        } else if keys.key_down(VAR) {
            draws.push(draw_cell(&self.board, self.pointer));
            self.state = AppState::Running;
        } else if keys.key_down(TOOLBOX) {
            draws.push(draw_cell(&self.board, self.pointer));
            self.state = AppState::StepByStep;
        }
        let ghost pre = draws@;
        let exe = keys.key_down(EXE);
        let delay_ms: u32 = match self.state {
            AppState::Editor => {
                self.edit(keys, &mut draws);
                50
            },
            AppState::Running => {
                let dirty = run_once(&mut self.board);
                push_redraws(&self.board, &dirty, &mut draws);
                assert(is_dirty_set(g.cells, self.board@, dirty@));
                10
            },
            AppState::StepByStep => {
                if exe && !self.exe_held {
                    let dirty = run_once(&mut self.board);
                    push_redraws(&self.board, &dirty, &mut draws);
                    assert(is_dirty_set(g.cells, self.board@, dirty@));
                    50
                } else {
                    0
                }
            },
        };
        self.exe_held = exe;
        proof {
            let n = next_view(g, keys.0);
            assert(self@.cells =~= n.cells);
        }
        Frame { draws, delay_ms }
    }
}

/// Appends the fills that show the cells of `dirty` as they are on the board.
fn push_redraws(board: &Board, dirty: &Vec<(usize, usize)>, draws: &mut Vec<(Rect, Color)>)
    requires
        forall|k: int| 0 <= k < dirty@.len() ==> in_bounds(#[trigger] dirty@[k].0 as int, dirty@[k].1 as int),
    ensures
        final(draws)@ == old(draws)@ + redraws(board@, dirty@),
{
    let ghost start = draws@;
    let mut k: usize = 0;
    while k < dirty.len()
        invariant
            k <= dirty@.len(),
            forall|j: int| 0 <= j < dirty@.len() ==> in_bounds(#[trigger] dirty@[j].0 as int, dirty@[j].1 as int),
            draws@ == start + redraws(board@, dirty@.take(k as int)),
        decreases dirty@.len() - k,
    {
        let c = dirty[k];
        draws.push(draw_cell(board, (c.0 as u16, c.1 as u16)));
        proof {
            assert(dirty@.take(k + 1) =~= dirty@.take(k as int).push(c));
            assert(redraws(board@, dirty@.take(k + 1)) =~= redraws(board@, dirty@.take(k as int)).push(
                cell_draw(board@, c.0 as u16, c.1 as u16),
            ));
        }
        k = k + 1;
    }
    assert(dirty@.take(dirty@.len() as int) =~= dirty@);
}

} // verus!
