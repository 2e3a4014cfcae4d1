//! The list of free cells, held in an `arrayvec::ArrayVec` of fixed capacity.
use arrayvec::ArrayVec;
use rand::seq::IndexedRandom;
use vstd::prelude::*;

use crate::constants::GRID_SIZE;

verus! {

#[verifier::external_type_specification]
#[verifier::external_body]
#[verifier::reject_recursive_types(T)]
pub struct ExArrayVec<T, const CAP: usize>(ArrayVec<T, CAP>);

/// The cells held by a list of valid moves, in storage order.
pub uninterp spec fn move_list(v: ArrayVec<usize, GRID_SIZE>) -> Seq<usize>;

/// `ArrayVec::new`: an empty list.
#[verifier::external_body]
pub(crate) fn moves_new() -> (r: ArrayVec<usize, GRID_SIZE>)
    ensures
        move_list(r) == Seq::<usize>::empty(),
{
    ArrayVec::new()
}

/// `ArrayVec::len`: the number of items, never above the capacity.
#[verifier::external_body]
pub(crate) fn moves_len(v: &ArrayVec<usize, GRID_SIZE>) -> (r: usize)
    ensures
        r == move_list(*v).len(),
        r <= GRID_SIZE,
{
    v.len()
}

/// `ArrayVec::push`: appends an item; it panics on a full list, which the
/// `requires` leaves out.
#[verifier::external_body]
pub(crate) fn moves_push(v: &mut ArrayVec<usize, GRID_SIZE>, x: usize)
    requires
        move_list(*old(v)).len() < GRID_SIZE,
    ensures
        move_list(*final(v)) == move_list(*old(v)).push(x),
{
    v.push(x)
}

/// `ArrayVec::is_empty`: whether the list holds no item.
#[verifier::external_body]
pub(crate) fn moves_is_empty(v: &ArrayVec<usize, GRID_SIZE>) -> (r: bool)
    ensures
        r == (move_list(*v).len() == 0),
{
    v.is_empty()
}

/// Indexing (through `Deref` to a slice): the item at `i`; out of bounds it
/// panics, which the `requires` leaves out.
#[verifier::external_body]
pub(crate) fn moves_get(v: &ArrayVec<usize, GRID_SIZE>, i: usize) -> (r: usize)
    requires
        i < move_list(*v).len(),
    ensures
        r == move_list(*v)[i as int],
{
    v[i]
}

/// `ArrayVec::swap_remove`: removes the item at `i`, moves the last item into
/// its place and returns the removed item; out of bounds it panics, which the
/// `requires` leaves out.
#[verifier::external_body]
pub(crate) fn moves_swap_remove(v: &mut ArrayVec<usize, GRID_SIZE>, i: usize) -> (r: usize)
    requires
        i < move_list(*old(v)).len(),
    ensures
        r == move_list(*old(v))[i as int],
        move_list(*final(v)) == move_list(*old(v)).update(i as int, move_list(*old(v)).last()).drop_last(),
{
    v.swap_remove(i)
}

/// `ArrayVec::remove`: removes the item at `i`, shifting the later items
/// down, and returns it; out of bounds it panics, which the `requires`
/// leaves out.
#[verifier::external_body]
pub(crate) fn moves_remove(v: &mut ArrayVec<usize, GRID_SIZE>, i: usize) -> (r: usize)
    requires
        i < move_list(*old(v)).len(),
    ensures
        r == move_list(*old(v))[i as int],
        move_list(*final(v)) == move_list(*old(v)).remove(i as int),
{
    v.remove(i)
}

/// `ArrayVec::clone`: a list with the same items in the same order.
#[verifier::external_body]
pub(crate) fn moves_clone(v: &ArrayVec<usize, GRID_SIZE>) -> (r: ArrayVec<usize, GRID_SIZE>)
    ensures
        move_list(r) == move_list(*v),
{
    v.clone()
}

/// `rand::seq::IndexedRandom::choose` on the list's items, with the thread's
/// generator `rand::rng()`: `None` exactly when the list is empty, otherwise
/// one of its items. Which item is drawn is left unsaid: it rests on chance.
#[verifier::external_body]
pub(crate) fn moves_choose(v: &ArrayVec<usize, GRID_SIZE>) -> (r: Option<usize>)
    ensures
        r is None <==> move_list(*v).len() == 0,
        r matches Some(x) ==> move_list(*v).contains(x),
{
    v.choose(&mut rand::rng()).copied()
}

} // verus!
