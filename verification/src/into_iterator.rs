//! The consuming iterator of the list, and the conversions from other
//! sequences into a list.

use crate::list::{back_of, front_of, without_back, without_front, DoublyLinkedList};
use vstd::prelude::*;
use vstd::std_specs::iter::DoubleEndedIteratorSpecImpl;
use vstd::std_specs::iter::IteratorSpec;
use vstd::std_specs::iter::IteratorSpecImpl;

verus! {

/// An iterator that owns a list and drains it from either end.
pub struct IntoIter<T> {
    list: DoublyLinkedList<T>,
}

impl<T> View for IntoIter<T> {
    type V = Seq<T>;

    /// The elements that are still to come, from front to back.
    closed spec fn view(&self) -> Seq<T> {
        self.list@
    }
}

impl<T> Iterator for IntoIter<T> {
    type Item = T;

    /// Removes the front element of what is left and yields it.
    fn next(&mut self) -> (r: Option<T>)
        ensures
            r == front_of(old(self)@),
            final(self)@ == without_front(old(self)@),
    {
        self.list.pop_front()
    }
}

impl<T> IteratorSpecImpl for IntoIter<T> {
    open spec fn obeys_prophetic_iter_laws(&self) -> bool {
        true
    }

    open spec fn remaining(&self) -> Seq<T> {
        self@
    }

    open spec fn will_return_none(&self) -> bool {
        true
    }

    open spec fn decrease(&self) -> Option<nat> {
        Some(self@.len())
    }

    open spec fn initial_value_relation(&self, init: &Self) -> bool {
        self@ == init@
    }

    open spec fn peek(&self, index: int) -> Option<T> {
        if 0 <= index < self@.len() {
            Some(self@[index])
        } else {
            None
        }
    }
}

impl<T> DoubleEndedIterator for IntoIter<T> {
    /// Removes the back element of what is left and yields it.
    fn next_back(&mut self) -> (r: Option<T>)
        ensures
            r == back_of(old(self)@),
            final(self)@ == without_back(old(self)@),
    {
        self.list.pop_back()
    }
}

impl<T> DoubleEndedIteratorSpecImpl for IntoIter<T> {
    open spec fn peek_back(&self, index: int) -> Option<T> {
        if 0 <= index < self@.len() {
            Some(self@[self@.len() - 1 - index])
        } else {
            None
        }
    }
}

impl<T> IntoIterator for DoublyLinkedList<T> {
    type Item = T;

    type IntoIter = IntoIter<T>;

    /// Hands the list over to an iterator that drains it.
    fn into_iter(self) -> (iter: IntoIter<T>)
        ensures
            iter@ == self@,
    {
        IntoIter { list: self }
    }
}

impl<T> DoublyLinkedList<T> {
    /// A list of the items that `iter` yields, in the order in which it
    /// yields them: each is put behind the last. The iterator must come to an
    /// end: it keeps to the laws that `vstd` states of iterators, and has a
    /// measure that goes down with every item.
    pub fn from_iter<I: Iterator<Item = T>>(iter: I) -> (list: Self)
        requires
            iter.obeys_prophetic_iter_laws(),
            iter.decrease() is Some,
        ensures
            list@ == iter.remaining(),
            list.allocated() == list@.len(),
    {
        let ghost items = iter.remaining();
        let mut rest = iter;
        let mut list = DoublyLinkedList::new();
        loop
            invariant
                rest.obeys_prophetic_iter_laws(),
                rest.decrease() is Some,
                list@ + rest.remaining() == items,
                list.allocated() == list@.len(),
            ensures
                list@ == items,
                list.allocated() == list@.len(),
            decreases rest.decrease()->0,
        {
            match rest.next() {
                Some(item) => {
                    list.push_back(item);
                },
                None => {
                    break;
                },
            }
        }
        list
    }
}

/// Calls std's `Vec::from` on an array, which allocates a vector and moves the
/// array's items into it. Verus takes from this contract, without proof, that
/// the vector holds the items of the array in their order.
#[verifier::external_body]
fn array_into_vec<T, const N: usize>(array: [T; N]) -> (items: Vec<T>)
    ensures
        items@ == array@,
{
    Vec::from(array)
}

impl<T, const N: usize> From<[T; N]> for DoublyLinkedList<T> {
    /// A list of the items of `array`, in their order.
    fn from(array: [T; N]) -> (list: Self)
        ensures
            list@ == array@,
            list.allocated() == N,
    {
        DoublyLinkedList::from_iter(array_into_vec(array).into_iter())
    }
}

/// `from` is specified by its own `ensures`. No spec function gives its
/// result: the elements of a list do not determine the layout of its arena.
/// `from_spec` picks some list of the array's items, and `from` does not
/// promise to return that one.
impl<T, const N: usize> vstd::std_specs::convert::FromSpecImpl<[T; N]> for DoublyLinkedList<T> {
    open spec fn obeys_from_spec() -> bool {
        false
    }

    open spec fn from_spec(array: [T; N]) -> Self {
        choose|list: Self| list@ == array@
    }
}

} // verus!
