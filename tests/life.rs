use game_of_life::board::{get, get_cell, new_board, set_cell, to_index, Board, BOARD_SIZE, COLUMN_SIZE, LINE_SIZE};
use game_of_life::eadk::{Color, Point, Rect, State, SCREEN_HEIGHT, SCREEN_WIDTH};
use game_of_life::engine::{run_cell, run_once};
use game_of_life::game::{AppState, Game};
use game_of_life::key;
use game_of_life::render::{cell_square, draw_cell};

fn board_with(cells: &[(usize, usize)]) -> Board {
    let mut b = new_board();
    for &(x, y) in cells {
        set_cell(&mut b, x, y, true);
    }
    b
}

fn live_cells(b: &Board) -> Vec<(usize, usize)> {
    let mut v = Vec::new();
    for y in 0..COLUMN_SIZE as usize {
        for x in 0..LINE_SIZE as usize {
            if get(b, x, y) {
                v.push((x, y));
            }
        }
    }
    v
}

fn keys(list: &[u32]) -> State {
    let mut bits: u64 = 0;
    for &k in list {
        bits |= 1u64 << k;
    }
    State::new(bits)
}

fn naive_next(b: &Board, x: usize, y: usize) -> bool {
    let mut n = 0;
    for dx in -1i32..=1 {
        for dy in -1i32..=1 {
            if dx == 0 && dy == 0 {
                continue;
            }
            n += get_cell(b, ((x as i32 + dx) as i16, (y as i32 + dy) as i16)) as u32;
        }
    }
    if get(b, x, y) {
        n == 2 || n == 3
    } else {
        n == 3
    }
}

#[test]
fn colors_from_rgb888() {
    assert_eq!(Color::from_rgb888(255, 0, 0).rgb565, 0b1111_1000_0000_0000);
    assert_eq!(Color::from_rgb888(0, 255, 0).rgb565, 0b0000_0111_1110_0000);
    assert_eq!(Color::from_rgb888(0, 0, 255).rgb565, 0b0000_0000_0001_1111);
    assert_eq!(Color::from_rgb888(8, 4, 8).rgb565, 0b0000_1000_0010_0001);
    assert_eq!(Color::black().rgb565, 0);
    assert_eq!(Color::white().rgb565, 0xffff);
    assert_eq!(Color::red().rgb565, 0xf800);
    assert_eq!(Color::green().rgb565, 0x07e0);
    assert_eq!(Color::blue().rgb565, 0x001f);
    assert_eq!(Color::new(1234).rgb565, 1234);
}

#[test]
fn rects_and_points() {
    let r = Rect::new(1, 2, 3, 4);
    assert_eq!((r.x, r.y, r.width, r.height), (1, 2, 3, 4));
    let s = Rect::screen();
    assert_eq!((s.x, s.y, s.width, s.height), (0, 0, SCREEN_WIDTH, SCREEN_HEIGHT));
    let p = Point::new(10, 20);
    assert_eq!((p.x, p.y), (10, 20));
    assert_eq!(Point::zero(), Point::new(0, 0));
}

#[test]
fn key_down_reads_one_bit() {
    let s = keys(&[key::EXE, key::LEFT]);
    assert!(s.key_down(key::EXE));
    assert!(s.key_down(key::LEFT));
    assert!(!s.key_down(key::RIGHT));
    assert!(!s.key_down(key::UP));
    // the key number wraps around the width of the mask
    assert!(s.key_down(64 + key::LEFT));
    assert!(!State::new(0).key_down(key::EXE));
}

#[test]
fn board_dimensions_and_index() {
    assert_eq!(LINE_SIZE, 80);
    assert_eq!(COLUMN_SIZE, 60);
    assert_eq!(BOARD_SIZE, 4800);
    assert_eq!(to_index(0, 0), 0);
    assert_eq!(to_index(3, 2), 163);
    assert_eq!(to_index(79, 59), 4799);
}

#[test]
fn set_writes_one_cell() {
    let mut b = new_board();
    set_cell(&mut b, 5, 7, true);
    assert!(get(&b, 5, 7));
    assert_eq!(live_cells(&b), vec![(5, 7)]);
    set_cell(&mut b, 5, 7, false);
    assert!(live_cells(&b).is_empty());
}

#[test]
fn get_cell_reads_off_board_as_dead() {
    let b = board_with(&[(0, 0), (79, 59)]);
    assert_eq!(get_cell(&b, (0, 0)), 1);
    assert_eq!(get_cell(&b, (79, 59)), 1);
    assert_eq!(get_cell(&b, (1, 0)), 0);
    assert_eq!(get_cell(&b, (-1, 0)), 0);
    assert_eq!(get_cell(&b, (0, -1)), 0);
    assert_eq!(get_cell(&b, (80, 59)), 0);
    assert_eq!(get_cell(&b, (79, 60)), 0);
    assert_eq!(get_cell(&b, (-1, -1)), 0);
}

#[test]
fn corner_counts_only_cells_on_the_board() {
    let b = board_with(&[(0, 1), (1, 0), (1, 1)]);
    let mut n = 0;
    for dx in -1i16..=1 {
        for dy in -1i16..=1 {
            if dx != 0 || dy != 0 {
                n += get_cell(&b, (dx, dy));
            }
        }
    }
    assert_eq!(n, 3);
    // a dead corner with exactly three live neighbors is born
    assert_eq!(run_cell(&b, (0, 0)), Some(true));
    // the opposite corner has none
    assert_eq!(run_cell(&b, (79, 59)), None);
}

#[test]
fn run_cell_follows_conway_rule() {
    // dead with three neighbors: born
    let b = board_with(&[(9, 10), (11, 10), (10, 11)]);
    assert_eq!(run_cell(&b, (10, 10)), Some(true));
    // dead with two: unchanged
    let b = board_with(&[(9, 10), (11, 10)]);
    assert_eq!(run_cell(&b, (10, 10)), None);
    for n in 0..=8usize {
        let around = [(9, 9), (10, 9), (11, 9), (9, 10), (11, 10), (9, 11), (10, 11), (11, 11)];
        let mut b = board_with(&around[..n]);
        set_cell(&mut b, 10, 10, true);
        let expected = if n == 2 || n == 3 { None } else { Some(false) };
        assert_eq!(run_cell(&b, (10, 10)), expected, "live cell with {} neighbors", n);
    }
}

#[test]
fn dead_board_stays_dead() {
    let mut b = new_board();
    for _ in 0..5 {
        let dirty = run_once(&mut b);
        assert!(dirty.is_empty());
        assert!(live_cells(&b).is_empty());
    }
}

#[test]
fn lone_cell_dies_and_is_the_only_dirty_cell() {
    let mut b = board_with(&[(20, 30)]);
    let dirty = run_once(&mut b);
    assert_eq!(dirty, vec![(20, 30)]);
    assert!(live_cells(&b).is_empty());
}

#[test]
fn block_is_a_still_life() {
    let block = [(10, 10), (11, 10), (10, 11), (11, 11)];
    let mut b = board_with(&block);
    for _ in 0..10 {
        let dirty = run_once(&mut b);
        assert!(dirty.is_empty());
        assert_eq!(live_cells(&b), vec![(10, 10), (11, 10), (10, 11), (11, 11)]);
    }
    // also in the corner of the board
    let mut b = board_with(&[(78, 58), (79, 58), (78, 59), (79, 59)]);
    for _ in 0..3 {
        assert!(run_once(&mut b).is_empty());
    }
    assert_eq!(live_cells(&b).len(), 4);
}

#[test]
fn blinker_oscillates() {
    let mut b = board_with(&[(4, 5), (5, 5), (6, 5)]);
    let mut dirty = run_once(&mut b);
    dirty.sort();
    assert_eq!(dirty, vec![(4, 5), (5, 4), (5, 6), (6, 5)]);
    assert_eq!(live_cells(&b), vec![(5, 4), (5, 5), (5, 6)]);
    run_once(&mut b);
    assert_eq!(live_cells(&b), vec![(4, 5), (5, 5), (6, 5)]);
}

#[test]
fn cells_outside_the_dirty_set_are_unchanged() {
    let mut b = board_with(&[(1, 0), (2, 1), (0, 2), (1, 2), (2, 2), (40, 40), (41, 40), (42, 41), (0, 59), (79, 0), (78, 0), (79, 1)]);
    for _ in 0..6 {
        let before = b;
        let dirty = run_once(&mut b);
        for y in 0..COLUMN_SIZE as usize {
            for x in 0..LINE_SIZE as usize {
                assert_eq!(get(&b, x, y), naive_next(&before, x, y));
                let changed = get(&b, x, y) != get(&before, x, y);
                assert_eq!(dirty.contains(&(x, y)), changed);
            }
        }
        let mut sorted = dirty.clone();
        sorted.sort();
        sorted.dedup();
        assert_eq!(sorted.len(), dirty.len());
    }
}

#[test]
fn full_board_keeps_only_its_corners() {
    let mut b: Board = [true; BOARD_SIZE];
    let dirty = run_once(&mut b);
    assert_eq!(dirty.len(), BOARD_SIZE - 4);
    assert_eq!(live_cells(&b), vec![(0, 0), (79, 0), (0, 59), (79, 59)]);
}

#[test]
fn draw_cell_uses_board_colors() {
    let b = board_with(&[(2, 3)]);
    let (r, c) = draw_cell(&b, (2, 3));
    assert_eq!((r.x, r.y, r.width, r.height), (8, 12, 4, 4));
    assert_eq!(c.rgb565, 0);
    let (r, c) = draw_cell(&b, (79, 59));
    assert_eq!((r.x, r.y, r.width, r.height), (316, 236, 4, 4));
    assert_eq!(c.rgb565, 0xffff);
    assert_eq!(cell_square((1, 1)), Rect::new(4, 4, 4, 4));
}

#[test]
fn game_starts_in_editor_at_center() {
    let g = Game::new();
    assert_eq!(g.state, AppState::Editor);
    assert_eq!(g.pointer, (40, 30));
    assert!(live_cells(&g.board).is_empty());
    assert!(!g.exe_held);
}

#[test]
fn cursor_stops_at_first_column() {
    let mut g = Game::new();
    for _ in 0..40 {
        g.tick(&keys(&[key::LEFT]));
    }
    assert_eq!(g.pointer, (0, 30));
    let f = g.tick(&keys(&[key::LEFT]));
    assert_eq!(g.pointer, (0, 30));
    // no move: only the highlight is drawn
    assert_eq!(f.draws, vec![(Rect::new(0, 120, 4, 4), Color::red())]);
    assert_eq!(f.delay_ms, 50);
    for _ in 0..100 {
        g.tick(&keys(&[key::UP]));
    }
    assert_eq!(g.pointer, (0, 0));
    for _ in 0..100 {
        g.tick(&keys(&[key::RIGHT, key::DOWN]));
    }
    assert_eq!(g.pointer, (79, 59));
}

#[test]
fn moving_redraws_the_cell_left_behind() {
    let mut g = Game::new();
    g.tick(&keys(&[key::EXE]));
    assert!(get(&g.board, 40, 30));
    let f = g.tick(&keys(&[key::UP, key::RIGHT]));
    assert_eq!(g.pointer, (41, 29));
    assert_eq!(
        f.draws,
        vec![
            (Rect::new(160, 120, 4, 4), Color::black()),
            (Rect::new(160, 116, 4, 4), Color::white()),
            (Rect::new(164, 116, 4, 4), Color::red()),
        ]
    );
}

#[test]
fn toggling_twice_restores_the_cell() {
    let mut g = Game::new();
    g.tick(&keys(&[key::EXE]));
    assert_eq!(live_cells(&g.board), vec![(40, 30)]);
    g.tick(&keys(&[key::EXE]));
    assert!(live_cells(&g.board).is_empty());
    assert_eq!(g.pointer, (40, 30));
    g.tick(&keys(&[key::PLUS]));
    g.tick(&keys(&[key::PLUS]));
    assert_eq!(live_cells(&g.board), vec![(40, 30)]);
    g.tick(&keys(&[key::MINUS]));
    g.tick(&keys(&[key::MINUS]));
    assert!(live_cells(&g.board).is_empty());
}

#[test]
fn mode_keys_switch_modes() {
    let mut g = Game::new();
    let f = g.tick(&keys(&[key::VAR]));
    assert_eq!(g.state, AppState::Running);
    // the highlight is replaced by the board color, and the empty board changes nothing
    assert_eq!(f.draws, vec![(Rect::new(160, 120, 4, 4), Color::white())]);
    assert_eq!(f.delay_ms, 10);
    g.tick(&keys(&[key::TOOLBOX]));
    assert_eq!(g.state, AppState::StepByStep);
    g.tick(&keys(&[key::XNT, key::VAR]));
    assert_eq!(g.state, AppState::Editor);
    g.tick(&keys(&[key::VAR, key::TOOLBOX]));
    assert_eq!(g.state, AppState::Running);
    g.tick(&keys(&[]));
    assert_eq!(g.state, AppState::Running);
}

#[test]
fn running_advances_every_iteration() {
    let mut g = Game::new();
    g.board = board_with(&[(4, 5), (5, 5), (6, 5)]);
    g.tick(&keys(&[key::VAR]));
    assert_eq!(live_cells(&g.board), vec![(5, 4), (5, 5), (5, 6)]);
    let f = g.tick(&keys(&[]));
    assert_eq!(live_cells(&g.board), vec![(4, 5), (5, 5), (6, 5)]);
    assert_eq!(f.draws.len(), 4);
    assert!(f.draws.contains(&(Rect::new(16, 20, 4, 4), Color::black())));
    assert!(f.draws.contains(&(Rect::new(20, 16, 4, 4), Color::white())));
    assert_eq!(f.delay_ms, 10);
}

#[test]
fn step_mode_advances_once_per_press() {
    let mut g = Game::new();
    g.board = board_with(&[(4, 5), (5, 5), (6, 5)]);
    g.tick(&keys(&[key::TOOLBOX]));
    assert_eq!(live_cells(&g.board), vec![(4, 5), (5, 5), (6, 5)]);
    // one press held over three iterations: one generation
    let f = g.tick(&keys(&[key::EXE]));
    assert_eq!(f.delay_ms, 50);
    assert_eq!(f.draws.len(), 4);
    let f = g.tick(&keys(&[key::EXE]));
    assert!(f.draws.is_empty());
    assert_eq!(f.delay_ms, 0);
    g.tick(&keys(&[key::EXE]));
    assert_eq!(live_cells(&g.board), vec![(5, 4), (5, 5), (5, 6)]);
    // release, then a second press: a second generation
    g.tick(&keys(&[]));
    assert_eq!(live_cells(&g.board), vec![(5, 4), (5, 5), (5, 6)]);
    g.tick(&keys(&[key::EXE]));
    assert_eq!(live_cells(&g.board), vec![(4, 5), (5, 5), (6, 5)]);
    // three presses: three generations
    let mut gens = 0;
    for _ in 0..3 {
        g.tick(&keys(&[]));
        g.tick(&keys(&[key::EXE]));
        g.tick(&keys(&[key::EXE]));
        gens += 1;
    }
    assert_eq!(gens, 3);
    assert_eq!(live_cells(&g.board), vec![(5, 4), (5, 5), (5, 6)]);
}
