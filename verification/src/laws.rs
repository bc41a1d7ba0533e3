//! Laws that relate the operations of the list to each other.
//!
//! Each law is stated over the sequence that a list is viewed as, with the
//! sequence operations by which the operations of the list are specified.

use crate::list::{back_of, front_of, without_back, without_front};
use vstd::prelude::*;

verus! {

/// A call of one of the four operations at the ends of a list.
pub enum EndOp<T> {
    PushFront(T),
    PushBack(T),
    PopFront,
    PopBack,
}

impl<T> EndOp<T> {
    /// Whether the call is a push.
    pub open spec fn is_push(self) -> bool {
        self is PushFront || self is PushBack
    }

    /// Whether the call is a pop that returns a value, on a list viewed as `s`.
    pub open spec fn pops(self, s: Seq<T>) -> bool {
        match self {
            EndOp::PopFront => front_of(s) is Some,
            EndOp::PopBack => back_of(s) is Some,
            _ => false,
        }
    }

    /// The view of the list after the call, where `s` was its view before:
    /// what `push_front`, `push_back`, `pop_front` and `pop_back` ensure.
    pub open spec fn apply(self, s: Seq<T>) -> Seq<T> {
        match self {
            EndOp::PushFront(element) => seq![element] + s,
            EndOp::PushBack(element) => s.push(element),
            EndOp::PopFront => without_front(s),
            EndOp::PopBack => without_back(s),
        }
    }
}

/// The view of a list after the calls `ops`, made one after the other on a
/// list viewed as `s`.
pub open spec fn run<T>(s: Seq<T>, ops: Seq<EndOp<T>>) -> Seq<T>
    decreases ops.len(),
{
    if ops.len() == 0 {
        s
    } else {
        ops.last().apply(run(s, ops.drop_last()))
    }
}

/// The number of pushes among `ops`.
pub open spec fn pushes<T>(ops: Seq<EndOp<T>>) -> nat
    decreases ops.len(),
{
    if ops.len() == 0 {
        0
    } else {
        pushes(ops.drop_last()) + if ops.last().is_push() {
            1nat
        } else {
            0nat
        }
    }
}

/// The number of pops among `ops` that return a value, where the calls are
/// made one after the other on a list viewed as `s`.
pub open spec fn pops<T>(s: Seq<T>, ops: Seq<EndOp<T>>) -> nat
    decreases ops.len(),
{
    if ops.len() == 0 {
        0
    } else {
        pops(s, ops.drop_last()) + if ops.last().pops(run(s, ops.drop_last())) {
            1nat
        } else {
            0nat
        }
    }
}

/// After any sequence of pushes and pops at either end, the length of the
/// list is its length before, plus the number of pushes, less the number of
/// pops that returned a value. A pop on an empty list returns none and takes
/// nothing off the length, so the length never falls below zero.
pub proof fn lemma_length_accounting<T>(s: Seq<T>, ops: Seq<EndOp<T>>)
    ensures
        run(s, ops).len() == s.len() + pushes(ops) - pops(s, ops),
        pops(s, ops) <= s.len() + pushes(ops),
    decreases ops.len(),
{
    if ops.len() > 0 {
        lemma_length_accounting(s, ops.drop_last());
    }
}

/// A list that starts empty holds, after any sequence of pushes and pops at
/// either end, as many elements as were pushed and not popped.
pub proof fn lemma_length_from_empty<T>(ops: Seq<EndOp<T>>)
    ensures
        run(Seq::<T>::empty(), ops).len() == pushes(ops) - pops(Seq::<T>::empty(), ops),
{
    lemma_length_accounting(Seq::<T>::empty(), ops);
}

/// The view of a list after each of `items` has been put behind its last
/// element, in their order, where `s` was its view before.
pub open spec fn pushed_back_all<T>(s: Seq<T>, items: Seq<T>) -> Seq<T>
    decreases items.len(),
{
    if items.len() == 0 {
        s
    } else {
        pushed_back_all(s, items.drop_last()).push(items.last())
    }
}

/// What stepping forward yields, call after call until it yields nothing,
/// from an iterator viewed as `s`.
pub open spec fn drained_forward<T>(s: Seq<T>) -> Seq<T>
    decreases s.len(),
{
    match front_of(s) {
        Some(element) => seq![element] + drained_forward(without_front(s)),
        None => Seq::empty(),
    }
}

/// What stepping backward yields, call after call until it yields nothing,
/// from an iterator viewed as `s`.
pub open spec fn drained_backward<T>(s: Seq<T>) -> Seq<T>
    decreases s.len(),
{
    match back_of(s) {
        Some(element) => seq![element] + drained_backward(without_back(s)),
        None => Seq::empty(),
    }
}

/// Putting items behind the last element, one after the other, appends them
/// in their order.
pub proof fn lemma_pushed_back_all<T>(s: Seq<T>, items: Seq<T>)
    ensures
        pushed_back_all(s, items) == s + items,
    decreases items.len(),
{
    if items.len() == 0 {
        assert(s + items =~= s);
    } else {
        lemma_pushed_back_all(s, items.drop_last());
        assert((s + items.drop_last()).push(items.last()) =~= s + items);
    }
}

/// Stepping forward until nothing is left yields the elements from front to
/// back.
pub proof fn lemma_drained_forward<T>(s: Seq<T>)
    ensures
        drained_forward(s) == s,
    decreases s.len(),
{
    if s.len() > 0 {
        lemma_drained_forward(s.drop_first());
        assert(seq![s.first()] + s.drop_first() =~= s);
    }
}

/// Stepping backward until nothing is left yields the elements from back to
/// front.
pub proof fn lemma_drained_backward<T>(s: Seq<T>)
    ensures
        drained_backward(s) == s.reverse(),
    decreases s.len(),
{
    if s.len() == 0 {
        assert(s.reverse() =~= Seq::<T>::empty());
    } else {
        lemma_drained_backward(s.drop_last());
        assert(seq![s.last()] + s.drop_last().reverse() =~= s.reverse());
    }
}

/// Round trip: a list built from `items` by putting each behind the last,
/// then drained by stepping forward, gives back `items` in their order.
pub proof fn lemma_round_trip<T>(items: Seq<T>)
    ensures
        drained_forward(pushed_back_all(Seq::empty(), items)) == items,
{
    lemma_pushed_back_all(Seq::empty(), items);
    assert(Seq::<T>::empty() + items =~= items);
    lemma_drained_forward(items);
}

/// Reversal: a list built from `items` by putting each behind the last, then
/// drained by stepping backward, gives `items` in reverse order.
pub proof fn lemma_reversal<T>(items: Seq<T>)
    ensures
        drained_backward(pushed_back_all(Seq::empty(), items)) == items.reverse(),
{
    lemma_pushed_back_all(Seq::empty(), items);
    assert(Seq::<T>::empty() + items =~= items);
    lemma_drained_backward(items);
}

} // verus!
