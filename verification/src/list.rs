//! A generic doubly linked list.
//!
//! The list is viewed as the sequence of its elements from front to back, and
//! every operation is specified by what it does to that sequence. Indices are
//! zero-based and count from the front.

use crate::chain::Chain;
use vstd::prelude::*;

verus! {

/// A doubly linked list of `T`.
///
/// A value of this type is well formed at every moment. Its nodes form one
/// chain that is consistent in both directions: following the next-links from
/// the first node, which has no previous node, reaches the last node, which
/// has no next node, in as many steps as following the previous-links back.
/// It has no first and no last node exactly when it holds no element. And it
/// has allocated exactly one node per element, which no other list holds.
pub struct DoublyLinkedList<T> {
    chain: Chain<T>,
}

impl<T> View for DoublyLinkedList<T> {
    type V = Seq<T>;

    /// The elements from front to back.
    closed spec fn view(&self) -> Seq<T> {
        self.chain.view()
    }
}

/// The first element of `s`, if any.
pub open spec fn front_of<T>(s: Seq<T>) -> Option<T> {
    if s.len() == 0 {
        None
    } else {
        Some(s.first())
    }
}

/// The last element of `s`, if any.
pub open spec fn back_of<T>(s: Seq<T>) -> Option<T> {
    if s.len() == 0 {
        None
    } else {
        Some(s.last())
    }
}

/// `s` without its first element; `s` itself where it is empty.
pub open spec fn without_front<T>(s: Seq<T>) -> Seq<T> {
    if s.len() == 0 {
        s
    } else {
        s.drop_first()
    }
}

/// `s` without its last element; `s` itself where it is empty.
pub open spec fn without_back<T>(s: Seq<T>) -> Seq<T> {
    if s.len() == 0 {
        s
    } else {
        s.drop_last()
    }
}

/// What the indexed operations report for an index that is not less than the
/// length of the list.
pub open spec fn out_of_bounds() -> Seq<char> {
    "Index out of bounds"@
}

impl<T> DoublyLinkedList<T> {
    #[verifier::type_invariant]
    spec fn well_formed(&self) -> bool {
        self.chain.wf()
    }

    /// The number of nodes that the list has allocated. It is the number of
    /// elements at every moment: a node comes into being when an element is
    /// put in, and is released when its element is taken out.
    pub closed spec fn allocated(&self) -> nat {
        self.chain.slots()
    }

    /// An empty list.
    pub fn new() -> (list: Self)
        ensures
            list@ == Seq::<T>::empty(),
            list.allocated() == 0,
    {
        let chain = Chain::new();
        proof {
            chain.lemma_one_slot_per_element();
        }
        DoublyLinkedList { chain }
    }

    /// The number of elements.
    pub fn len(&self) -> (n: usize)
        ensures
            n == self@.len(),
    {
        proof {
            use_type_invariant(self);
        }
        self.chain.len()
    }

    /// Whether the list holds no element.
    pub fn is_empty(&self) -> (empty: bool)
        ensures
            empty == (self@.len() == 0),
    {
        self.len() == 0
    }

    /// The number of nodes that the list has allocated: one per element, at
    /// every moment.
    pub fn node_count(&self) -> (n: usize)
        ensures
            n == self.allocated(),
            n == self@.len(),
    {
        proof {
            use_type_invariant(self);
        }
        self.chain.node_count()
    }

    /// Removes the first element and returns it; `None` on an empty list,
    /// which stays as it is.
    pub fn pop_front(&mut self) -> (r: Option<T>)
        ensures
            r == front_of(old(self)@),
            final(self)@ == without_front(old(self)@),
            final(self).allocated() == final(self)@.len(),
    {
        proof {
            use_type_invariant(&*self);
        }
        let mut chain = Chain::new();
        std::mem::swap(&mut self.chain, &mut chain);
        let r = chain.pop_front();
        proof {
            chain.lemma_one_slot_per_element();
        }
        self.chain = chain;
        r
    }

    /// Removes the last element and returns it; `None` on an empty list,
    /// which stays as it is.
    pub fn pop_back(&mut self) -> (r: Option<T>)
        ensures
            r == back_of(old(self)@),
            final(self)@ == without_back(old(self)@),
            final(self).allocated() == final(self)@.len(),
    {
        proof {
            use_type_invariant(&*self);
        }
        let mut chain = Chain::new();
        std::mem::swap(&mut self.chain, &mut chain);
        let r = chain.pop_back();
        proof {
            chain.lemma_one_slot_per_element();
        }
        self.chain = chain;
        r
    }

    /// Removes the element at `index` and returns it. An index that is not
    /// less than the length is refused, and the list stays as it is.
    pub fn remove(&mut self, index: usize) -> (r: Result<T, String>)
        ensures
            index < old(self)@.len() ==> r == Ok::<T, String>(old(self)@[index as int])
                && final(self)@ == old(self)@.remove(index as int),
            index >= old(self)@.len() ==> r is Err && r->Err_0@ == out_of_bounds() && final(self)@
                == old(self)@,
            final(self).allocated() == final(self)@.len(),
    {
        proof {
            use_type_invariant(&*self);
        }
        let mut chain = Chain::new();
        std::mem::swap(&mut self.chain, &mut chain);
        let removed = chain.remove(index);
        proof {
            chain.lemma_one_slot_per_element();
        }
        self.chain = chain;
        match removed {
            Some(element) => Ok(element),
            None => Err("Index out of bounds".to_owned()),
        }
    }

    /// Puts `element` before the first element.
    pub fn push_front(&mut self, element: T)
        ensures
            final(self)@ == seq![element] + old(self)@,
            final(self).allocated() == final(self)@.len(),
    {
        proof {
            use_type_invariant(&*self);
        }
        let mut chain = Chain::new();
        std::mem::swap(&mut self.chain, &mut chain);
        chain.push_front(element);
        proof {
            chain.lemma_one_slot_per_element();
        }
        self.chain = chain;
    }

    /// Puts `element` behind the last element.
    pub fn push_back(&mut self, element: T)
        ensures
            final(self)@ == old(self)@.push(element),
            final(self).allocated() == final(self)@.len(),
    {
        proof {
            use_type_invariant(&*self);
        }
        let mut chain = Chain::new();
        std::mem::swap(&mut self.chain, &mut chain);
        chain.push_back(element);
        proof {
            chain.lemma_one_slot_per_element();
        }
        self.chain = chain;
    }

    /// Puts `element` directly behind the element at `index`. An index that is
    /// not less than the length is refused, and the list stays as it is.
    pub fn insert_after(&mut self, index: usize, element: T) -> (r: Result<(), String>)
        ensures
            index < old(self)@.len() ==> r is Ok && final(self)@ == old(self)@.insert(
                index + 1,
                element,
            ),
            index >= old(self)@.len() ==> r is Err && r->Err_0@ == out_of_bounds() && final(self)@
                == old(self)@,
            final(self).allocated() == final(self)@.len(),
    {
        proof {
            use_type_invariant(&*self);
        }
        let mut chain = Chain::new();
        std::mem::swap(&mut self.chain, &mut chain);
        let inserted = chain.insert_after(index, element);
        proof {
            chain.lemma_one_slot_per_element();
        }
        self.chain = chain;
        if inserted {
            Ok(())
        } else {
            Err("Index out of bounds".to_owned())
        }
    }

    /// Puts `element` directly before the element at `index`. An index that is
    /// not less than the length is refused, and the list stays as it is.
    pub fn insert_before(&mut self, index: usize, element: T) -> (r: Result<(), String>)
        ensures
            index < old(self)@.len() ==> r is Ok && final(self)@ == old(self)@.insert(
                index as int,
                element,
            ),
            index >= old(self)@.len() ==> r is Err && r->Err_0@ == out_of_bounds() && final(self)@
                == old(self)@,
            final(self).allocated() == final(self)@.len(),
    {
        proof {
            use_type_invariant(&*self);
        }
        let mut chain = Chain::new();
        std::mem::swap(&mut self.chain, &mut chain);
        let inserted = chain.insert_before(index, element);
        proof {
            chain.lemma_one_slot_per_element();
        }
        self.chain = chain;
        if inserted {
            Ok(())
        } else {
            Err("Index out of bounds".to_owned())
        }
    }

    /// The first element, if any.
    pub fn front(&self) -> (r: Option<&T>)
        ensures
            r == if self@.len() == 0 {
                None
            } else {
                Some(&self@.first())
            },
    {
        proof {
            use_type_invariant(self);
        }
        self.chain.front()
    }

    /// The first element, if any, to be changed in place. Whatever the caller
    /// writes through the borrow becomes the first element; nothing else
    /// changes.
    pub fn front_mut(&mut self) -> (r: Option<&mut T>)
        ensures
            old(self)@.len() == 0 ==> r is None && final(self)@ == old(self)@,
            old(self)@.len() > 0 ==> r is Some && *r->0 == old(self)@.first() && final(self)@
                == old(self)@.update(0, *final(r->0)),
            final(self).allocated() == old(self).allocated(),
    {
        proof {
            use_type_invariant(&*self);
        }
        self.chain.front_mut()
    }

    /// The last element, if any.
    pub fn back(&self) -> (r: Option<&T>)
        ensures
            r == if self@.len() == 0 {
                None
            } else {
                Some(&self@.last())
            },
    {
        proof {
            use_type_invariant(self);
        }
        self.chain.back()
    }

    /// The last element, if any, to be changed in place. Whatever the caller
    /// writes through the borrow becomes the last element; nothing else
    /// changes.
    pub fn back_mut(&mut self) -> (r: Option<&mut T>)
        ensures
            old(self)@.len() == 0 ==> r is None && final(self)@ == old(self)@,
            old(self)@.len() > 0 ==> r is Some && *r->0 == old(self)@.last() && final(self)@
                == old(self)@.update(old(self)@.len() - 1, *final(r->0)),
            final(self).allocated() == old(self).allocated(),
    {
        proof {
            use_type_invariant(&*self);
        }
        self.chain.back_mut()
    }

    /// The element at `index`; `None` where `index` is not less than the
    /// length.
    pub fn get(&self, index: usize) -> (r: Option<&T>)
        ensures
            r == if index < self@.len() {
                Some(&self@[index as int])
            } else {
                None
            },
    {
        proof {
            use_type_invariant(self);
        }
        self.chain.get(index)
    }

    /// The element at `index`, to be changed in place; `None` where `index`
    /// is not less than the length. Whatever the caller writes through the
    /// borrow becomes the element at `index`; nothing else changes.
    pub fn get_mut(&mut self, index: usize) -> (r: Option<&mut T>)
        ensures
            index >= old(self)@.len() ==> r is None && final(self)@ == old(self)@,
            index < old(self)@.len() ==> r is Some && *r->0 == old(self)@[index as int]
                && final(self)@ == old(self)@.update(index as int, *final(r->0)),
            final(self).allocated() == old(self).allocated(),
    {
        proof {
            use_type_invariant(&*self);
        }
        self.chain.get_mut(index)
    }

    /// Releases every node, one after the other from the front, and returns
    /// how many nodes were released.
    pub fn clear(&mut self) -> (released: usize)
        ensures
            released == old(self)@.len(),
            released == old(self).allocated(),
            final(self)@ == Seq::<T>::empty(),
            final(self).allocated() == 0,
    {
        proof {
            use_type_invariant(&*self);
            self.chain.lemma_one_slot_per_element();
        }
        let mut released: usize = 0;
        while self.pop_front().is_some()
            invariant
                released + self@.len() == old(self)@.len(),
                old(self)@.len() <= usize::MAX,
                self.allocated() == self@.len(),
            decreases self@.len(),
        {
            released = released + 1;
        }
        released
    }
}

} // verus!
