//! The simulation engine: one generation of Conway's rule, reporting exactly
//! the cells that changed.

use vstd::prelude::*;
use crate::board::{
    alive, get, get_cell, in_bounds, index_of, lemma_board_dims, lemma_coords_of, lemma_index_of,
    lemma_next_gen_at, next_alive, next_gen, neighbor_count, set_cell, to_index, transition, Board,
    BOARD_SIZE, COLUMN_SIZE, LINE_SIZE,
};
use crate::on_board::{on_board_at, on_board_items, on_board_len, on_board_new, on_board_push, OnBoard};

verus! {

/// What happens to cell `(x, y)` in the next generation: `Some(true)` when it
/// is born, `Some(false)` when it dies, `None` when it keeps its state.
pub fn run_cell(board: &Board, pos: (usize, usize)) -> (r: Option<bool>)
    requires
        in_bounds(pos.0 as int, pos.1 as int),
    ensures
        r == transition(board@, pos.0 as int, pos.1 as int),
{
    let (x, y) = pos;
    let (ix, iy) = (x as i16, y as i16);
    let neighbor_count = get_cell(board, (ix - 1, iy - 1)) + get_cell(board, (ix, iy - 1))
        + get_cell(board, (ix + 1, iy - 1)) + get_cell(board, (ix - 1, iy)) + get_cell(
        board,
        (ix + 1, iy),
    ) + get_cell(board, (ix - 1, iy + 1)) + get_cell(board, (ix, iy + 1)) + get_cell(
        board,
        (ix + 1, iy + 1),
    );
    let here = get(board, x, y);
    if neighbor_count == 3 && !here {
        Some(true)
    } else if neighbor_count != 2 && neighbor_count != 3 && here {
        Some(false)
    } else {
        None
    }
}


/// The number of `true` entries of `s`.
pub open spec fn count_true(s: Seq<bool>) -> nat
    decreases s.len(),
{
    if s.len() == 0 {
        0
    } else {
        count_true(s.drop_last()) + if s.last() {
            1nat
        } else {
            0nat
        }
    }
}

proof fn lemma_count_true_le(s: Seq<bool>)
    ensures
        count_true(s) <= s.len(),
    decreases s.len(),
{
    if s.len() > 0 {
        lemma_count_true_le(s.drop_last());
    }
}

proof fn lemma_count_true_none(s: Seq<bool>)
    requires
        forall|i: int| 0 <= i < s.len() ==> !s[i],
    ensures
        count_true(s) == 0,
    decreases s.len(),
{
    if s.len() > 0 {
        lemma_count_true_none(s.drop_last());
    }
}

proof fn lemma_count_true_mark(s: Seq<bool>, i: int)
    requires
        0 <= i < s.len(),
        !s[i],
    ensures
        count_true(s.update(i, true)) == count_true(s) + 1,
    decreases s.len(),
{
    let t = s.update(i, true);
    if i == s.len() - 1 {
        assert(t.drop_last() =~= s.drop_last());
    } else {
        assert(t.drop_last() =~= s.drop_last().update(i, true));
        lemma_count_true_mark(s.drop_last(), i);
    }
}

/// Cell `(a, b)` comes before `(x, y)` in the scan, which walks the columns in
/// order and each column from the top.
pub open spec fn scanned_before(a: int, b: int, x: int, y: int) -> bool {
    a < x || (a == x && b < y)
}

/// Every cell around a live cell scanned before `(x, y)` has been visited.
pub open spec fn neighborhoods_visited(cells: Seq<bool>, visited: Seq<bool>, x: int, y: int) -> bool {
    forall|a: int, b: int, c: int, d: int|
        #![trigger alive(cells, a, b), visited[index_of(c, d)]]
        alive(cells, a, b) && scanned_before(a, b, x, y) && in_bounds(c, d) && a - 1 <= c <= a + 1
            && b - 1 <= d <= b + 1 ==> visited[index_of(c, d)]
}

/// The lists of births and deaths found so far hold exactly the visited cells
/// that are born and that die, each once, and together no more items than
/// there are visited cells.
pub open spec fn changes_of_visited(
    cells: Seq<bool>,
    visited: Seq<bool>,
    born: Seq<(usize, usize)>,
    died: Seq<(usize, usize)>,
) -> bool {
    &&& born.no_duplicates()
    &&& died.no_duplicates()
    &&& forall|k: int|
        #![trigger born[k]]
        0 <= k < born.len() ==> {
            let (a, b) = (born[k].0 as int, born[k].1 as int);
            in_bounds(a, b) && visited[index_of(a, b)] && transition(cells, a, b) == Some(true)
        }
    &&& forall|k: int|
        #![trigger died[k]]
        0 <= k < died.len() ==> {
            let (a, b) = (died[k].0 as int, died[k].1 as int);
            in_bounds(a, b) && visited[index_of(a, b)] && transition(cells, a, b) == Some(false)
        }
    &&& forall|a: int, b: int|
        #![trigger visited[index_of(a, b)]]
        in_bounds(a, b) && visited[index_of(a, b)] ==> (transition(cells, a, b) == Some(true)
            ==> born.contains((a as usize, b as usize)))
            && (transition(cells, a, b) == Some(false) ==> died.contains(
            (a as usize, b as usize),
        ))
    &&& born.len() + died.len() <= count_true(visited)
}

/// Visiting one more cell, and filing it under births or deaths by its
/// transition, keeps the lists exact.
proof fn lemma_visit(
    cells: Seq<bool>,
    before: Seq<bool>,
    born: Seq<(usize, usize)>,
    died: Seq<(usize, usize)>,
    c: (usize, usize),
    born2: Seq<(usize, usize)>,
    died2: Seq<(usize, usize)>,
)
    requires
        before.len() == BOARD_SIZE,
        changes_of_visited(cells, before, born, died),
        in_bounds(c.0 as int, c.1 as int),
        !before[index_of(c.0 as int, c.1 as int)],
        born2 == (if transition(cells, c.0 as int, c.1 as int) == Some(true) {
            born.push(c)
        } else {
            born
        }),
        died2 == (if transition(cells, c.0 as int, c.1 as int) == Some(false) {
            died.push(c)
        } else {
            died
        }),
    ensures
        changes_of_visited(cells, before.update(index_of(c.0 as int, c.1 as int), true), born2, died2),
{
    let i = index_of(c.0 as int, c.1 as int);
    let after = before.update(i, true);
    lemma_coords_of(c.0 as int, c.1 as int);
    lemma_count_true_mark(before, i);
    assert forall|a: int, b: int| in_bounds(a, b) && index_of(a, b) == i implies a == c.0 && b
        == c.1 by {
        lemma_coords_of(a, b);
    }
    assert(!born.contains(c));
    assert(!died.contains(c));
    assert forall|k: int|
        #![trigger born2[k]]
        0 <= k < born2.len() implies {
        let (a, b) = (born2[k].0 as int, born2[k].1 as int);
        in_bounds(a, b) && after[index_of(a, b)] && transition(cells, a, b) == Some(true)
    } by {
        if k < born.len() {
            assert(born2[k] == born[k]);
        }
    }
    assert forall|k: int|
        #![trigger died2[k]]
        0 <= k < died2.len() implies {
        let (a, b) = (died2[k].0 as int, died2[k].1 as int);
        in_bounds(a, b) && after[index_of(a, b)] && transition(cells, a, b) == Some(false)
    } by {
        if k < died.len() {
            assert(died2[k] == died[k]);
        }
    }
    assert forall|a: int, b: int|
        #![trigger after[index_of(a, b)]]
        in_bounds(a, b) && after[index_of(a, b)] implies (transition(cells, a, b) == Some(true)
        ==> born2.contains((a as usize, b as usize))) && (transition(cells, a, b) == Some(false)
        ==> died2.contains((a as usize, b as usize))) by {
        if index_of(a, b) == i {
            if transition(cells, a, b) == Some(true) {
                assert(born2[born.len() as int] == c);
            }
            if transition(cells, a, b) == Some(false) {
                assert(died2[died.len() as int] == c);
            }
        } else {
            assert(before[index_of(a, b)]);
            if transition(cells, a, b) == Some(true) {
                let k = choose|k: int| 0 <= k < born.len() && born[k] == (a as usize, b as usize);
                assert(born2[k] == born[k]);
            }
            if transition(cells, a, b) == Some(false) {
                let k = choose|k: int| 0 <= k < died.len() && died[k] == (a as usize, b as usize);
                assert(died2[k] == died[k]);
            }
        }
    }
}

/// Every cell that changes is next to a live cell or is one: once the
/// neighborhoods of all live cells are visited, so is every changing cell.
proof fn lemma_changes_visited(cells: Seq<bool>, visited: Seq<bool>, x: int, y: int)
    requires
        neighborhoods_visited(cells, visited, LINE_SIZE as int, 0),
        in_bounds(x, y),
        transition(cells, x, y) != None::<bool>,
    ensures
        visited[index_of(x, y)],
{
    if alive(cells, x, y) {
    } else if alive(cells, x - 1, y - 1) {
    } else if alive(cells, x, y - 1) {
    } else if alive(cells, x + 1, y - 1) {
    } else if alive(cells, x - 1, y) {
    } else if alive(cells, x + 1, y) {
    } else if alive(cells, x - 1, y + 1) {
    } else if alive(cells, x, y + 1) {
    } else {
        assert(alive(cells, x + 1, y + 1));
    }
}

/// The nearest coordinate to `v` in `[0, hi]`.
fn clamp_coord(v: isize, hi: isize) -> (r: usize)
    requires
        0 <= hi,
    ensures
        0 <= v <= hi ==> r == v,
        r <= hi,
{
    if v < 0 {
        0
    } else if v > hi {
        hi as usize
    } else {
        v as usize
    }
}

/// Scans the board from its live cells: every cell around a live cell is
/// evaluated once, and the births and the deaths are collected apart.
fn collect_changes(board: &Board) -> (r: (OnBoard, OnBoard))
    ensures
        ({
            let (born, died) = (on_board_items(r.0), on_board_items(r.1));
            &&& born.no_duplicates()
            &&& died.no_duplicates()
            &&& forall|k: int|
                0 <= k < born.len() ==> in_bounds(born[k].0 as int, born[k].1 as int)
            &&& forall|k: int|
                0 <= k < died.len() ==> in_bounds(died[k].0 as int, died[k].1 as int)
            &&& forall|a: int, b: int|
                in_bounds(a, b) ==> (born.contains((a as usize, b as usize)) <==> transition(
                    board@,
                    a,
                    b,
                ) == Some(true)) && (died.contains((a as usize, b as usize)) <==> transition(
                    board@,
                    a,
                    b,
                ) == Some(false))
        }),
{
    let ghost cells = board@;
    let mut visited: Board = [false; BOARD_SIZE];
    let mut born = on_board_new();
    let mut died = on_board_new();
    proof {
        lemma_board_dims();
        lemma_count_true_none(visited@);
    }
    let mut x: usize = 0;
    while x < LINE_SIZE as usize
        invariant
            board@ == cells,
            0 <= x <= LINE_SIZE,
            neighborhoods_visited(cells, visited@, x as int, 0),
            changes_of_visited(cells, visited@, on_board_items(born), on_board_items(died)),
        decreases LINE_SIZE - x,
    {
        let mut y: usize = 0;
        while y < COLUMN_SIZE as usize
            invariant
                board@ == cells,
                0 <= x < LINE_SIZE,
                0 <= y <= COLUMN_SIZE,
                neighborhoods_visited(cells, visited@, x as int, y as int),
                changes_of_visited(cells, visited@, on_board_items(born), on_board_items(died)),
            decreases COLUMN_SIZE - y,
        {
            if get(board, x, y) {
                let mut dx: isize = -1;
                while dx <= 1
                    invariant
                        board@ == cells,
                        0 <= x < LINE_SIZE,
                        0 <= y < COLUMN_SIZE,
                        alive(cells, x as int, y as int),
                        -1 <= dx <= 2,
                        neighborhoods_visited(cells, visited@, x as int, y as int),
                        forall|c: int, d: int|
                            #![trigger visited@[index_of(c, d)]]
                            in_bounds(c, d) && x - 1 <= c < x + dx && y - 1 <= d <= y + 1
                                ==> visited@[index_of(c, d)],
                        changes_of_visited(
                            cells,
                            visited@,
                            on_board_items(born),
                            on_board_items(died),
                        ),
                    decreases 2 - dx,
                {
                    let mut dy: isize = -1;
                    while dy <= 1
                        invariant
                            board@ == cells,
                            0 <= x < LINE_SIZE,
                            0 <= y < COLUMN_SIZE,
                            alive(cells, x as int, y as int),
                            -1 <= dx <= 1,
                            -1 <= dy <= 2,
                            neighborhoods_visited(cells, visited@, x as int, y as int),
                            forall|c: int, d: int|
                                #![trigger visited@[index_of(c, d)]]
                                in_bounds(c, d) && x - 1 <= c < x + dx && y - 1 <= d <= y + 1
                                    ==> visited@[index_of(c, d)],
                            forall|d: int|
                                #![trigger visited@[index_of(x + dx, d)]]
                                in_bounds(x + dx, d) && y - 1 <= d < y + dy
                                    ==> visited@[index_of(x + dx, d)],
                            changes_of_visited(
                                cells,
                                visited@,
                                on_board_items(born),
                                on_board_items(died),
                            ),
                        decreases 2 - dy,
                    {
                        let c = (
                            clamp_coord(x as isize + dx, LINE_SIZE as isize - 1),
                            clamp_coord(y as isize + dy, COLUMN_SIZE as isize - 1),
                        );
                        let i = to_index(c.0, c.1);
                        if !visited[i] {
                            let ghost before = visited@;
                            proof {
                                lemma_count_true_mark(before, i as int);
                                lemma_count_true_le(before.update(i as int, true));
                            }
                            visited[i] = true;
                            proof {
                                assert forall|a: int, b: int| in_bounds(a, b) && index_of(a, b) == i
                                    implies a == c.0 && b == c.1 by {
                                    lemma_coords_of(a, b);
                                    lemma_coords_of(c.0 as int, c.1 as int);
                                }
                            }
                            let ghost (born0, died0) = (on_board_items(born), on_board_items(died));
                            match run_cell(board, c) {
                                Some(true) => {
                                    let _ = on_board_push(&mut born, c);
                                },
                                Some(false) => {
                                    let _ = on_board_push(&mut died, c);
                                },
                                None => {},
                            }
                            proof {
                                lemma_visit(
                                    cells,
                                    before,
                                    born0,
                                    died0,
                                    c,
                                    on_board_items(born),
                                    on_board_items(died),
                                );
                            }
                        }
                        dy = dy + 1;
                    }
                    dx = dx + 1;
                }
            }
            y = y + 1;
        }
        x = x + 1;
    }
    proof {
        let v = visited@;
        let (bi, di) = (on_board_items(born), on_board_items(died));
        assert forall|a: int, b: int| in_bounds(a, b) implies (bi.contains((a as usize, b as usize))
            <==> transition(cells, a, b) == Some(true)) && (di.contains((a as usize, b as usize))
            <==> transition(cells, a, b) == Some(false)) by {
            if transition(cells, a, b) != None::<bool> {
                lemma_changes_visited(cells, v, a, b);
            }
            if bi.contains((a as usize, b as usize)) {
                let k = choose|k: int| 0 <= k < bi.len() && bi[k] == (a as usize, b as usize);
            }
            if di.contains((a as usize, b as usize)) {
                let k = choose|k: int| 0 <= k < di.len() && di[k] == (a as usize, b as usize);
            }
        }
    }
    (born, died)
}


/// Distinct coordinates of the board sit at distinct positions.
proof fn lemma_index_injective(a: int, b: int, c: int, d: int)
    requires
        in_bounds(a, b),
        in_bounds(c, d),
        index_of(a, b) == index_of(c, d),
    ensures
        a == c,
        b == d,
{
    lemma_coords_of(a, b);
    lemma_coords_of(c, d);
}

/// Whether a cell changes between two boards.
pub open spec fn changed(before: Seq<bool>, after: Seq<bool>, x: int, y: int) -> bool {
    before[index_of(x, y)] != after[index_of(x, y)]
}

/// Applying the births, then the deaths, to the board gives the next
/// generation, and the births followed by the deaths are its dirty set.
proof fn lemma_applied(
    cells: Seq<bool>,
    bi: Seq<(usize, usize)>,
    di: Seq<(usize, usize)>,
    fin: Seq<bool>,
    dirty: Seq<(usize, usize)>,
)
    requires
        cells.len() == BOARD_SIZE,
        fin.len() == BOARD_SIZE,
        dirty == bi + di,
        bi.no_duplicates(),
        di.no_duplicates(),
        forall|k: int| 0 <= k < bi.len() ==> in_bounds(#[trigger] bi[k].0 as int, bi[k].1 as int),
        forall|k: int| 0 <= k < di.len() ==> in_bounds(#[trigger] di[k].0 as int, di[k].1 as int),
        forall|a: int, b: int|
            in_bounds(a, b) ==> (bi.contains((a as usize, b as usize)) <==> transition(cells, a, b)
                == Some(true)) && (di.contains((a as usize, b as usize)) <==> transition(
                cells,
                a,
                b,
            ) == Some(false)),
        forall|a: int, b: int|
            #![trigger fin[index_of(a, b)]]
            in_bounds(a, b) ==> fin[index_of(a, b)] == ((bi.contains((a as usize, b as usize))
                || cells[index_of(a, b)]) && !di.contains((a as usize, b as usize))),
    ensures
        fin == next_gen(cells),
        dirty.no_duplicates(),
        forall|k: int| 0 <= k < dirty.len() ==> in_bounds(dirty[k].0 as int, dirty[k].1 as int),
        forall|x: int, y: int|
            in_bounds(x, y) ==> (dirty.contains((x as usize, y as usize)) <==> changed(cells, fin, x, y)),
{
        assert forall|a: int, b: int| in_bounds(a, b) implies fin[index_of(a, b)] == next_alive(
            cells,
            a,
            b,
        ) by {
            assert(fin[index_of(a, b)] == ((bi.contains((a as usize, b as usize))
                    || cells[index_of(a, b)]) && !di.contains((a as usize, b as usize))));
        }
        assert forall|i: int| 0 <= i < BOARD_SIZE implies fin[i] == next_gen(cells)[i] by {
            lemma_index_of(i);
            let (a, b) = (i % LINE_SIZE as int, i / LINE_SIZE as int);
            lemma_next_gen_at(cells, a, b);
        }
        assert(fin =~= next_gen(cells));
        assert forall|x: int, y: int| in_bounds(x, y) implies (dirty.contains(
            (x as usize, y as usize),
        ) <==> changed(cells, fin, x, y)) by {
            let c = (x as usize, y as usize);
            assert(fin[index_of(x, y)] == next_alive(cells, x, y));
            if bi.contains(c) {
                let j = choose|j: int| 0 <= j < bi.len() && bi[j] == c;
                assert(dirty[j] == c);
            }
            if di.contains(c) {
                let j = choose|j: int| 0 <= j < di.len() && di[j] == c;
                assert(dirty[bi.len() + j] == c);
            }
            if dirty.contains(c) {
                let j = choose|j: int| 0 <= j < dirty.len() && dirty[j] == c;
                if j < bi.len() {
                    assert(bi[j] == c);
                } else {
                    assert(di[j - bi.len()] == c);
                }
            }
        }
        assert forall|j: int| 0 <= j < dirty.len() implies in_bounds(
            #[trigger] dirty[j].0 as int,
            dirty[j].1 as int,
        ) by {
            if j < bi.len() {
                assert(dirty[j] == bi[j]);
            } else {
                assert(dirty[j] == di[j - bi.len()]);
            }
        }
        assert forall|i: int, j: int| 0 <= i < j < dirty.len() implies dirty[i] != dirty[j] by {
            if j < bi.len() {
                assert(dirty[i] == bi[i] && dirty[j] == bi[j]);
            } else if i >= bi.len() {
                assert(dirty[i] == di[i - bi.len()] && dirty[j] == di[j - bi.len()]);
            } else {
                let (p, q) = (dirty[i], dirty[j]);
                assert(p == bi[i] && q == di[j - bi.len()]);
                assert(bi.contains(p));
                assert(di.contains(q));
                assert(in_bounds(bi[i].0 as int, bi[i].1 as int));
                assert(in_bounds(di[j - bi.len()].0 as int, di[j - bi.len()].1 as int));
                let (a, b) = (p.0 as int, p.1 as int);
                assert((a as usize, b as usize) == p);
                if p == q {
                    assert(transition(cells, a, b) == Some(true));
                    assert(transition(cells, a, b) == Some(false));
                }
            }
        }
}

/// Advances the board by one generation and returns the dirty set: every
/// coordinate whose cell changed, each once; no other cell is written.
pub fn run_once(board: &mut Board) -> (dirty: Vec<(usize, usize)>)
    ensures
        final(board)@ == next_gen(old(board)@),
        dirty@.no_duplicates(),
        forall|k: int|
            0 <= k < dirty@.len() ==> in_bounds(dirty@[k].0 as int, dirty@[k].1 as int),
        forall|x: int, y: int|
            in_bounds(x, y) ==> (dirty@.contains((x as usize, y as usize)) <==> changed(
                old(board)@,
                final(board)@,
                x,
                y,
            )),
{
    let ghost cells = board@;
    let (born, died) = collect_changes(board);
    let ghost (bi, di) = (on_board_items(born), on_board_items(died));
    let mut dirty: Vec<(usize, usize)> = Vec::new();
    let nb = on_board_len(&born);
    let mut k: usize = 0;
    while k < nb
        invariant
            nb == bi.len(),
            bi == on_board_items(born),
            k <= nb,
            dirty@ == bi.take(k as int),
            forall|j: int| 0 <= j < bi.len() ==> in_bounds(#[trigger] bi[j].0 as int, bi[j].1 as int),
            forall|a: int, b: int|
                #![trigger board@[index_of(a, b)]]
                in_bounds(a, b) ==> board@[index_of(a, b)] == (bi.take(k as int).contains(
                    (a as usize, b as usize),
                ) || cells[index_of(a, b)]),
        decreases nb - k,
    {
        let c = on_board_at(&born, k);
        let ghost prev = board@;
        set_cell(board, c.0, c.1, true);
        dirty.push(c);
        proof {
            assert(bi.take(k + 1) =~= bi.take(k as int).push(c));
            assert forall|a: int, b: int| #![trigger board@[index_of(a, b)]] in_bounds(a, b) implies board@[index_of(a, b)] == (bi.take(k + 1).contains(
                (a as usize, b as usize),
            ) || cells[index_of(a, b)]) by {
                lemma_coords_of(a, b);
                let t = bi.take(k as int);
                if index_of(a, b) == index_of(c.0 as int, c.1 as int) {
                    lemma_index_injective(a, b, c.0 as int, c.1 as int);
                    assert(t.push(c)[t.len() as int] == c);
                } else {
                    assert(board@[index_of(a, b)] == prev[index_of(a, b)]);
                    assert((a as usize, b as usize) != c);
                    if t.push(c).contains((a as usize, b as usize)) {
                        let j = choose|j: int| 0 <= j < t.len() + 1 && t.push(c)[j] == (a as usize, b as usize);
                        assert(t[j] == (a as usize, b as usize));
                    }
                    if t.contains((a as usize, b as usize)) {
                        let j = choose|j: int| 0 <= j < t.len() && t[j] == (a as usize, b as usize);
                        assert(t.push(c)[j] == (a as usize, b as usize));
                    }
                }
            }
        }
        k = k + 1;
    }
    assert(bi.take(nb as int) =~= bi);
    let nd = on_board_len(&died);
    let mut k: usize = 0;
    while k < nd
        invariant
            nd == di.len(),
            di == on_board_items(died),
            k <= nd,
            dirty@ == bi + di.take(k as int),
            forall|j: int| 0 <= j < di.len() ==> in_bounds(#[trigger] di[j].0 as int, di[j].1 as int),
            forall|a: int, b: int|
                #![trigger board@[index_of(a, b)]]
                in_bounds(a, b) ==> board@[index_of(a, b)] == ((bi.contains((a as usize, b as usize))
                    || cells[index_of(a, b)]) && !di.take(k as int).contains((a as usize, b as usize))),
        decreases nd - k,
    {
        let c = on_board_at(&died, k);
        let ghost prev = board@;
        set_cell(board, c.0, c.1, false);
        dirty.push(c);
        proof {
            assert(di.take(k + 1) =~= di.take(k as int).push(c));
            assert(bi + di.take(k + 1) =~= (bi + di.take(k as int)).push(c));
            assert forall|a: int, b: int| #![trigger board@[index_of(a, b)]] in_bounds(a, b) implies board@[index_of(a, b)] == ((bi.contains((a as usize, b as usize))
                    || cells[index_of(a, b)]) && !di.take(k + 1).contains((a as usize, b as usize))) by {
                lemma_coords_of(a, b);
                let t = di.take(k as int);
                if index_of(a, b) == index_of(c.0 as int, c.1 as int) {
                    lemma_index_injective(a, b, c.0 as int, c.1 as int);
                    assert(t.push(c)[t.len() as int] == c);
                } else {
                    assert(board@[index_of(a, b)] == prev[index_of(a, b)]);
                    assert((a as usize, b as usize) != c);
                    if t.push(c).contains((a as usize, b as usize)) {
                        let j = choose|j: int| 0 <= j < t.len() + 1 && t.push(c)[j] == (a as usize, b as usize);
                        assert(t[j] == (a as usize, b as usize));
                    }
                    if t.contains((a as usize, b as usize)) {
                        let j = choose|j: int| 0 <= j < t.len() && t[j] == (a as usize, b as usize);
                        assert(t.push(c)[j] == (a as usize, b as usize));
                    }
                }
            }
        }
        k = k + 1;
    }
    proof {
        assert(di.take(nd as int) =~= di);
        lemma_applied(cells, bi, di, board@, dirty@);
    }
    dirty
}

} // verus!
