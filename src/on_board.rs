//! A fixed-capacity list of board coordinates, held in a `heapless::Vec`
//! sized to the whole board so that no generation can overflow it.

use vstd::prelude::*;
use crate::board::BOARD_SIZE;

verus! {

#[verifier::external_type_specification]
#[verifier::external_body]
#[verifier::reject_recursive_types(T)]
pub struct ExHeaplessVec<T, const N: usize>(heapless::Vec<T, N>);

/// A list of coordinates with room for every cell of the board.
pub type OnBoard = heapless::Vec<(usize, usize), BOARD_SIZE>;

/// The coordinates held by a list, in order.
pub uninterp spec fn on_board_items(v: heapless::Vec<(usize, usize), BOARD_SIZE>) -> Seq<(usize, usize)>;

/// Relies on heapless::Vec::new: a new vector holds nothing.
#[verifier::external_body]
pub(crate) fn on_board_new() -> (v: OnBoard)
    ensures
        on_board_items(v) == Seq::<(usize, usize)>::empty(),
{
    heapless::Vec::new()
}

/// Relies on heapless::Vec::push: below the capacity `N` the item is appended
/// and `Ok` returned; at the capacity the vector is untouched and the item is
/// handed back in `Err`.
#[verifier::external_body]
pub(crate) fn on_board_push(v: &mut OnBoard, c: (usize, usize)) -> (r: Result<(), (usize, usize)>)
    ensures
        r == (if on_board_items(*old(v)).len() < BOARD_SIZE {
            Ok::<(), (usize, usize)>(())
        } else {
            Err::<(), (usize, usize)>(c)
        }),
        on_board_items(*final(v)) == (if on_board_items(*old(v)).len() < BOARD_SIZE {
            on_board_items(*old(v)).push(c)
        } else {
            on_board_items(*old(v))
        }),
{
    v.push(c)
}

/// Relies on heapless::Vec's `Deref` to the slice of its items: `len` counts them.
#[verifier::external_body]
pub(crate) fn on_board_len(v: &OnBoard) -> (n: usize)
    ensures
        n == on_board_items(*v).len(),
{
    v.len()
}

/// Relies on heapless::Vec's `Deref` to the slice of its items: indexing reads
/// the item at that position.
#[verifier::external_body]
pub(crate) fn on_board_at(v: &OnBoard, i: usize) -> (c: (usize, usize))
    requires
        i < on_board_items(*v).len(),
    ensures
        c == on_board_items(*v)[i as int],
{
    v[i]
}

} // verus!
