//! The storage behind the list: an arena of nodes that link to each other by
//! handle, together with the handles of the first and the last node.
//!
//! A handle is the index of a node's slot in the arena. The arena is kept
//! compact: it holds exactly one slot per element, so releasing a node moves
//! the node in the last slot into the slot that became free.

use vstd::prelude::*;

verus! {

/// The link `link` once the node in slot `from` has moved to slot `to`.
spec fn retargeted(link: Option<usize>, from: usize, to: usize) -> Option<usize> {
    if link == Some(from) {
        Some(to)
    } else {
        link
    }
}

/// One element of the list with the handles of its two neighbours.
pub struct Node<T> {
    element: T,
    prev: Option<usize>,
    next: Option<usize>,
}

impl<T> Node<T> {
    /// The element that the node holds.
    pub closed spec fn element(&self) -> T {
        self.element
    }

    /// The handle of the node before this one, if any.
    pub closed spec fn prev(&self) -> Option<usize> {
        self.prev
    }

    /// The handle of the node after this one, if any.
    pub closed spec fn next(&self) -> Option<usize> {
        self.next
    }

    /// This node once the node in slot `from` has moved to slot `to`.
    spec fn retargeted(self, from: usize, to: usize) -> Self {
        Node {
            element: self.element,
            prev: retargeted(self.prev, from, to),
            next: retargeted(self.next, from, to),
        }
    }

    /// A node that holds `element` and is linked to nothing.
    pub fn new(element: T) -> (node: Self)
        ensures
            node.element() == element,
            node.prev() is None,
            node.next() is None,
    {
        Node { element, prev: None, next: None }
    }
}

/// A chain of nodes in an arena.
///
/// `order` lists the handles of the linked nodes from the first to the last;
/// `place` is its inverse on the slots of the arena and is -1 for a slot whose
/// node is not linked.
pub(crate) struct Chain<T> {
    size: usize,
    head: Option<usize>,
    tail: Option<usize>,
    nodes: Vec<Node<T>>,
    order: Ghost<Seq<usize>>,
    place: Ghost<Seq<int>>,
}

impl<T> Chain<T> {
    /// `order` and `place` are inverse to each other.
    spec fn indexed(&self) -> bool {
        &&& self.place@.len() == self.nodes@.len()
        &&& forall|i: int|
            0 <= i < self.order@.len() ==> (#[trigger] self.order@[i]) < self.nodes@.len()
                && self.place@[self.order@[i] as int] == i
        &&& forall|h: int|
            0 <= h < self.nodes@.len() ==> -1 <= (#[trigger] self.place@[h]) < self.order@.len()
                && (self.place@[h] >= 0 ==> self.order@[self.place@[h]] == h)
    }

    /// The handle that the node in slot `h` must hold as its previous-link.
    spec fn prev_of(&self, h: int) -> Option<usize> {
        if self.place@[h] <= 0 {
            None
        } else {
            Some(self.order@[self.place@[h] - 1])
        }
    }

    /// The handle that the node in slot `h` must hold as its next-link.
    spec fn next_of(&self, h: int) -> Option<usize> {
        if self.place@[h] + 1 >= self.order@.len() {
            None
        } else {
            Some(self.order@[self.place@[h] + 1])
        }
    }

    /// The first handle of `order`, if any.
    spec fn first_of(&self) -> Option<usize> {
        if self.order@.len() == 0 {
            None
        } else {
            Some(self.order@[0])
        }
    }

    /// The last handle of `order`, if any.
    spec fn last_of(&self) -> Option<usize> {
        if self.order@.len() == 0 {
            None
        } else {
            Some(self.order@[self.order@.len() - 1])
        }
    }

    /// The linked nodes form one chain that is consistent in both directions:
    /// it starts at `head`, ends at `tail`, holds `size` nodes, and every
    /// linked node points at its two neighbours in `order`.
    spec fn linked(&self) -> bool {
        &&& self.size == self.order@.len()
        &&& self.indexed()
        &&& self.head == self.first_of()
        &&& self.tail == self.last_of()
        &&& forall|h: int|
            0 <= h < self.nodes@.len() && self.place@[h] >= 0 ==> (#[trigger] self.nodes@[h]).prev
                == self.prev_of(h) && self.nodes@[h].next == self.next_of(h)
    }

    /// The chain is consistent and every node of the arena is linked into it.
    pub(crate) closed spec fn wf(&self) -> bool {
        &&& self.linked()
        &&& self.order@.len() == self.nodes@.len()
        &&& forall|h: int| 0 <= h < self.nodes@.len() ==> (#[trigger] self.place@[h]) >= 0
    }

    /// The chain is consistent and every node of the arena but the one in
    /// slot `h` is linked into it.
    spec fn holed(&self, h: int) -> bool {
        &&& self.linked()
        &&& 0 <= h < self.nodes@.len()
        &&& self.order@.len() + 1 == self.nodes@.len()
        &&& forall|x: int|
            0 <= x < self.nodes@.len() ==> ((#[trigger] self.place@[x]) >= 0 <==> x != h)
    }

    /// The elements from the first node to the last.
    pub(crate) closed spec fn view(&self) -> Seq<T> {
        Seq::new(self.order@.len(), |i: int| self.nodes@[self.order@[i] as int].element)
    }

    /// The number of slots in the arena.
    pub(crate) closed spec fn slots(&self) -> nat {
        self.nodes@.len()
    }

    /// A well-formed chain has exactly one slot per element, and no more
    /// elements than a `usize` counts.
    pub(crate) proof fn lemma_one_slot_per_element(&self)
        requires
            self.wf(),
        ensures
            self.slots() == self.view().len(),
            self.view().len() <= usize::MAX,
    {
    }

    /// A chain without nodes.
    pub(crate) fn new() -> (chain: Self)
        ensures
            chain.wf(),
            chain.view() == Seq::<T>::empty(),
    {
        Chain {
            size: 0,
            head: None,
            tail: None,
            nodes: Vec::new(),
            order: Ghost(Seq::empty()),
            place: Ghost(Seq::empty()),
        }
    }

    /// The number of linked nodes.
    pub(crate) fn len(&self) -> (n: usize)
        requires
            self.wf(),
        ensures
            n == self.view().len(),
    {
        self.size
    }

    /// The number of nodes that the arena holds.
    pub(crate) fn node_count(&self) -> (n: usize)
        requires
            self.wf(),
        ensures
            n == self.slots(),
            n == self.view().len(),
    {
        self.nodes.len()
    }

    /// Allocates a node for `element` and links it in as the first node.
    pub(crate) fn push_front(&mut self, element: T)
        requires
            old(self).wf(),
        ensures
            final(self).wf(),
            final(self).view() == seq![element] + old(self).view(),
    {
        let handle = self.nodes.len();
        let mut node = Node::new(element);
        node.next = self.head;
        self.nodes.push(node);
        assert(self.nodes.len() == self.nodes@.len());
        match self.head {
            Some(first) => {
                self.nodes[first].prev = Some(handle);
            },
            None => {
                self.tail = Some(handle);
            },
        }
        self.head = Some(handle);
        self.size = self.size + 1;
        let ghost before = *old(self);
        self.order = Ghost(seq![handle] + before.order@);
        self.place = Ghost(
            Seq::new(
                before.place@.len() + 1,
                |h: int| if h == handle { 0 } else { before.place@[h] + 1 },
            ),
        );
        proof {
            assert forall|i: int| 0 <= i < self.order@.len() implies (#[trigger] self.order@[i])
                < self.nodes@.len() && self.place@[self.order@[i] as int] == i by {
                if i > 0 {
                    assert(self.order@[i] == before.order@[i - 1]);
                }
            }
            assert forall|h: int| 0 <= h < self.nodes@.len() && self.place@[h] >= 0 implies (
            #[trigger] self.nodes@[h]).prev == self.prev_of(h) && self.nodes@[h].next
                == self.next_of(h) by {
                if h != handle {
                    assert(before.place@[h] >= 0);
                    assert(before.nodes@[h].next == before.next_of(h));
                }
            }
            assert(self.view() =~= seq![element] + before.view());
        }
    }

    /// Allocates a node for `element` and links it in as the last node.
    pub(crate) fn push_back(&mut self, element: T)
        requires
            old(self).wf(),
        ensures
            final(self).wf(),
            final(self).view() == old(self).view().push(element),
    {
        let handle = self.nodes.len();
        let mut node = Node::new(element);
        node.prev = self.tail;
        self.nodes.push(node);
        assert(self.nodes.len() == self.nodes@.len());
        match self.tail {
            Some(last) => {
                self.nodes[last].next = Some(handle);
            },
            None => {
                self.head = Some(handle);
            },
        }
        self.tail = Some(handle);
        self.size = self.size + 1;
        let ghost before = *old(self);
        self.order = Ghost(before.order@.push(handle));
        self.place = Ghost(before.place@.push(before.order@.len() as int));
        proof {
            assert forall|h: int| 0 <= h < self.nodes@.len() && self.place@[h] >= 0 implies (
            #[trigger] self.nodes@[h]).prev == self.prev_of(h) && self.nodes@[h].next
                == self.next_of(h) by {
                if h != handle {
                    assert(before.place@[h] >= 0);
                    assert(before.nodes@[h].next == before.next_of(h));
                }
            }
            assert(self.view() =~= before.view().push(element));
        }
    }

    /// Turns the links that point at the node in slot `from` to slot `to`:
    /// the next-link of the node before it, the previous-link of the node
    /// after it, and `head` and `tail` where it is the first or the last node.
    fn retarget(&mut self, from: usize, to: usize)
        requires
            old(self).linked(),
            from < old(self).nodes@.len(),
            old(self).place@[from as int] >= 0,
        ensures
            final(self).size == old(self).size,
            final(self).order == old(self).order,
            final(self).place == old(self).place,
            final(self).nodes@.len() == old(self).nodes@.len(),
            final(self).head == retargeted(old(self).head, from, to),
            final(self).tail == retargeted(old(self).tail, from, to),
            forall|x: int|
                0 <= x < old(self).nodes@.len() ==> (#[trigger] final(self).nodes@[x])
                    == if old(self).place@[x] >= 0 {
                    old(self).nodes@[x].retargeted(from, to)
                } else {
                    old(self).nodes@[x]
                },
    {
        let prev = self.nodes[from].prev;
        let next = self.nodes[from].next;
        match prev {
            Some(before) => {
                self.nodes[before].next = Some(to);
            },
            None => {
                self.head = Some(to);
            },
        }
        match next {
            Some(after) => {
                self.nodes[after].prev = Some(to);
            },
            None => {
                self.tail = Some(to);
            },
        }
        proof {
            let start = *old(self);
            let at = start.place@[from as int];
            assert(start.nodes@[from as int].prev == start.prev_of(from as int));
            assert forall|x: int| 0 <= x < start.nodes@.len() implies (#[trigger] self.nodes@[x])
                == if start.place@[x] >= 0 {
                start.nodes@[x].retargeted(from, to)
            } else {
                start.nodes@[x]
            } by {
                if start.place@[x] >= 0 {
                    assert(start.nodes@[x].prev == start.prev_of(x));
                    assert(start.order@[start.place@[x]] == x);
                    assert(start.nodes@[x].prev == Some(from) <==> start.place@[x] == at + 1);
                    assert(start.nodes@[x].next == Some(from) <==> start.place@[x] == at - 1);
                }
            }
        }
    }

    /// The chain `end` is the chain `start` after the node of its last slot
    /// has moved into the free slot `h` and the last slot has been dropped.
    spec fn filled(start: Self, end: Self, h: int) -> bool {
        let last = end.nodes@.len() as int;
        &&& start.holed(h)
        &&& h != last
        &&& end.size == start.size
        &&& end.nodes@.len() + 1 == start.nodes@.len()
        &&& end.order@ == start.order@.update(start.place@[last], h as usize)
        &&& end.place@ == start.place@.update(h, start.place@[last]).drop_last()
        &&& end.head == retargeted(start.head, last as usize, h as usize)
        &&& end.tail == retargeted(start.tail, last as usize, h as usize)
        &&& end.nodes@[h] == start.nodes@[last]
        &&& forall|x: int|
            0 <= x < last && x != h ==> (#[trigger] end.nodes@[x]) == start.nodes@[x].retargeted(
                last as usize,
                h as usize,
            )
    }

    /// In a chain with the free slot `h`, the last slot is linked at one
    /// position only, and no other slot is linked there.
    proof fn lemma_last_slot(start: Self, h: int)
        requires
            start.holed(h),
            h != start.nodes@.len() - 1,
        ensures
            0 <= start.place@[start.nodes@.len() - 1] < start.order@.len(),
            start.order@[start.place@[start.nodes@.len() - 1]] == start.nodes@.len() - 1,
            forall|i: int|
                0 <= i < start.order@.len() && i != start.place@[start.nodes@.len() - 1] ==> (
                #[trigger] start.order@[i]) != start.nodes@.len() - 1 && start.order@[i] != h,
            forall|x: int|
                0 <= x < start.nodes@.len() - 1 && x != h ==> 0 <= (#[trigger] start.place@[x])
                    && start.place@[x] != start.place@[start.nodes@.len() - 1],
    {
    }

    /// After the move, `order` and `place` are inverse to each other again,
    /// and every slot is linked.
    proof fn lemma_filled_indexed(start: Self, end: Self, h: int)
        requires
            Self::filled(start, end, h),
        ensures
            end.indexed(),
            end.order@.len() == end.nodes@.len(),
            forall|x: int| 0 <= x < end.nodes@.len() ==> (#[trigger] end.place@[x]) >= 0,
    {
        Self::lemma_last_slot(start, h);
    }

    /// After the move, every node points at its two neighbours by their new
    /// handles.
    proof fn lemma_filled_linked(start: Self, end: Self, h: int)
        requires
            Self::filled(start, end, h),
            end.indexed(),
        ensures
            end.linked(),
    {
        Self::lemma_last_slot(start, h);
        let last = end.nodes@.len() as int;
        assert(start.nodes@[last].prev == start.prev_of(last));
        assert forall|x: int| 0 <= x < end.nodes@.len() && end.place@[x] >= 0 implies (
        #[trigger] end.nodes@[x]).prev == end.prev_of(x) && end.nodes@[x].next == end.next_of(
            x,
        ) by {
            if x != h {
                assert(start.nodes@[x].prev == start.prev_of(x));
            }
        }
    }

    /// The move changes no element and no position.
    proof fn lemma_filled_view(start: Self, end: Self, h: int)
        requires
            Self::filled(start, end, h),
        ensures
            end.view() == start.view(),
    {
        Self::lemma_last_slot(start, h);
        assert forall|i: int| 0 <= i < end.order@.len() implies end.nodes@[end.order@[i] as int].element
            == start.nodes@[start.order@[i] as int].element by {
            if i != start.place@[end.nodes@.len() as int] {
                assert(end.order@[i] == start.order@[i]);
            }
        }
        assert(end.view() =~= start.view());
    }

    /// Dropping the last slot of a chain in which that slot is free leaves a
    /// well-formed chain of the same elements.
    proof fn lemma_dropped_last(start: Self, end: Self)
        requires
            start.holed(start.nodes@.len() - 1),
            end.size == start.size,
            end.head == start.head,
            end.tail == start.tail,
            end.order@ == start.order@,
            end.place@ == start.place@.drop_last(),
            end.nodes@ == start.nodes@.drop_last(),
        ensures
            end.wf(),
            end.view() == start.view(),
    {
        assert forall|x: int| 0 <= x < end.nodes@.len() && end.place@[x] >= 0 implies (
        #[trigger] end.nodes@[x]).prev == end.prev_of(x) && end.nodes@[x].next == end.next_of(
            x,
        ) by {
            assert(start.nodes@[x].prev == start.prev_of(x));
        }
        assert(end.view() =~= start.view());
    }

    /// Gives up the slot `h`, whose node is linked to nothing, and hands out
    /// that node. The node in the last slot moves into slot `h`, and the
    /// links that pointed at it are turned to its new handle.
    fn release(&mut self, h: usize) -> (node: Node<T>)
        requires
            old(self).holed(h as int),
        ensures
            final(self).wf(),
            final(self).view() == old(self).view(),
            node == old(self).nodes@[h as int],
    {
        let last = self.nodes.len() - 1;
        if h != last {
            self.retarget(last, h);
        }
        let node = self.nodes.swap_remove(h);
        let ghost start = *old(self);
        if h != last {
            self.order = Ghost(start.order@.update(start.place@[last as int], h));
            self.place = Ghost(start.place@.update(h as int, start.place@[last as int]).drop_last());
        } else {
            self.place = Ghost(start.place@.drop_last());
        }
        proof {
            if h != last {
                Self::lemma_filled_indexed(start, *self, h as int);
                Self::lemma_filled_linked(start, *self, h as int);
                Self::lemma_filled_view(start, *self, h as int);
            } else {
                assert(self.nodes@ =~= start.nodes@.drop_last());
                Self::lemma_dropped_last(start, *self);
            }
        }
        node
    }

    /// Detaches the first node, makes the node after it the first, releases
    /// the detached node and hands out its element.
    pub(crate) fn pop_front(&mut self) -> (r: Option<T>)
        requires
            old(self).wf(),
        ensures
            final(self).wf(),
            old(self).view().len() == 0 ==> r is None && final(self).view() == old(self).view(),
            old(self).view().len() > 0 ==> r == Some(old(self).view().first())
                && final(self).view() == old(self).view().drop_first(),
    {
        if self.size == 0 {
            return None;
        }
        let first = self.head.unwrap();
        let next = self.nodes[first].next;
        self.head = next;
        match next {
            Some(second) => {
                self.nodes[second].prev = None;
            },
            None => {
                self.tail = None;
            },
        }
        self.size = self.size - 1;
        let ghost before = *old(self);
        self.order = Ghost(before.order@.drop_first());
        self.place = Ghost(Seq::new(before.place@.len(), |h: int| before.place@[h] - 1));
        proof {
            assert forall|x: int| 0 <= x < self.nodes@.len() && self.place@[x] >= 0 implies (
            #[trigger] self.nodes@[x]).prev == self.prev_of(x) && self.nodes@[x].next
                == self.next_of(x) by {
                assert(before.place@[x] >= 0);
                assert(before.nodes@[x].prev == before.prev_of(x));
            }
            assert forall|x: int| 0 <= x < self.nodes@.len() implies ((#[trigger] self.place@[x])
                >= 0 <==> x != first) by {
                assert(before.place@[x] >= 0);
            }
            assert(self.view() =~= before.view().drop_first());
        }
        let node = self.release(first);
        Some(node.element)
    }

    /// Detaches the last node, makes the node before it the last, releases
    /// the detached node and hands out its element.
    pub(crate) fn pop_back(&mut self) -> (r: Option<T>)
        requires
            old(self).wf(),
        ensures
            final(self).wf(),
            old(self).view().len() == 0 ==> r is None && final(self).view() == old(self).view(),
            old(self).view().len() > 0 ==> r == Some(old(self).view().last())
                && final(self).view() == old(self).view().drop_last(),
    {
        if self.size == 0 {
            return None;
        }
        let last = self.tail.unwrap();
        let prev = self.nodes[last].prev;
        self.tail = prev;
        match prev {
            Some(second) => {
                self.nodes[second].next = None;
            },
            None => {
                self.head = None;
            },
        }
        self.size = self.size - 1;
        let ghost before = *old(self);
        self.order = Ghost(before.order@.drop_last());
        self.place = Ghost(before.place@.update(last as int, -1));
        proof {
            assert forall|x: int| 0 <= x < self.nodes@.len() && self.place@[x] >= 0 implies (
            #[trigger] self.nodes@[x]).prev == self.prev_of(x) && self.nodes@[x].next
                == self.next_of(x) by {
                assert(before.place@[x] >= 0);
                assert(before.nodes@[x].prev == before.prev_of(x));
            }
            assert forall|x: int| 0 <= x < self.nodes@.len() implies ((#[trigger] self.place@[x])
                >= 0 <==> x != last) by {
                assert(before.place@[x] >= 0);
            }
            assert(self.view() =~= before.view().drop_last());
        }
        let node = self.release(last);
        Some(node.element)
    }

    /// The handle of the node at position `index`, found by following the
    /// links from the nearer end of the chain; `None` where `index` is not
    /// less than the number of nodes.
    fn handle_at(&self, index: usize) -> (found: Option<usize>)
        requires
            self.wf(),
        ensures
            found == if index < self.view().len() {
                Some(self.order@[index as int])
            } else {
                None
            },
        no_unwind
    {
        if index >= self.size {
            return None;
        }
        if index <= (self.size - 1) / 2 {
            let mut cur = self.head;
            let mut at: usize = 0;
            while at < index
                invariant
                    self.wf(),
                    at <= index < self.size,
                    cur == Some(self.order@[at as int]),
                decreases index - at,
            {
                cur = match cur {
                    Some(h) => self.nodes[h].next,
                    None => None,
                };
                at = at + 1;
            }
            cur
        } else {
            let mut cur = self.tail;
            let mut at: usize = self.size - 1;
            while at > index
                invariant
                    self.wf(),
                    index <= at < self.size,
                    cur == Some(self.order@[at as int]),
                decreases at - index,
            {
                cur = match cur {
                    Some(h) => self.nodes[h].prev,
                    None => None,
                };
                at = at - 1;
            }
            cur
        }
    }

    /// The element of the first node.
    pub(crate) fn front(&self) -> (r: Option<&T>)
        requires
            self.wf(),
        ensures
            r == if self.view().len() == 0 {
                None
            } else {
                Some(&self.view().first())
            },
    {
        match self.head {
            Some(first) => Some(&self.nodes[first].element),
            None => None,
        }
    }

    /// The element of the last node.
    pub(crate) fn back(&self) -> (r: Option<&T>)
        requires
            self.wf(),
        ensures
            r == if self.view().len() == 0 {
                None
            } else {
                Some(&self.view().last())
            },
    {
        match self.tail {
            Some(last) => Some(&self.nodes[last].element),
            None => None,
        }
    }

    /// The element of the node at position `index`.
    pub(crate) fn get(&self, index: usize) -> (r: Option<&T>)
        requires
            self.wf(),
        ensures
            r == if index < self.view().len() {
                Some(&self.view()[index as int])
            } else {
                None
            },
    {
        match self.handle_at(index) {
            Some(at) => Some(&self.nodes[at].element),
            None => None,
        }
    }

    /// A mutable borrow of the element in slot `h`, whose node stands at
    /// position `index`.
    fn element_mut(&mut self, h: usize, Ghost(index): Ghost<int>) -> (r: &mut T)
        requires
            old(self).wf(),
            0 <= index < old(self).view().len(),
            h == old(self).order@[index],
        ensures
            final(self).wf(),
            final(self).slots() == old(self).slots(),
            *r == old(self).view()[index],
            final(self).view() == old(self).view().update(index, *final(r)),
        no_unwind
    {
        &mut self.nodes[h].element
    }

    /// A mutable borrow of the element of the first node.
    pub(crate) fn front_mut(&mut self) -> (r: Option<&mut T>)
        requires
            old(self).wf(),
        ensures
            final(self).wf(),
            final(self).slots() == old(self).slots(),
            old(self).view().len() == 0 ==> r is None && final(self).view() == old(self).view(),
            old(self).view().len() > 0 ==> r is Some && *r->0 == old(self).view().first()
                && final(self).view() == old(self).view().update(0, *final(r->0)),
        no_unwind
    {
        match self.head {
            Some(first) => Some(self.element_mut(first, Ghost(0))),
            None => None,
        }
    }

    /// A mutable borrow of the element of the last node.
    pub(crate) fn back_mut(&mut self) -> (r: Option<&mut T>)
        requires
            old(self).wf(),
        ensures
            final(self).wf(),
            final(self).slots() == old(self).slots(),
            old(self).view().len() == 0 ==> r is None && final(self).view() == old(self).view(),
            old(self).view().len() > 0 ==> r is Some && *r->0 == old(self).view().last()
                && final(self).view() == old(self).view().update(
                old(self).view().len() - 1,
                *final(r->0),
            ),
        no_unwind
    {
        match self.tail {
            Some(last) => Some(self.element_mut(last, Ghost(self.order@.len() - 1))),
            None => None,
        }
    }

    /// A mutable borrow of the element of the node at position `index`.
    pub(crate) fn get_mut(&mut self, index: usize) -> (r: Option<&mut T>)
        requires
            old(self).wf(),
        ensures
            final(self).wf(),
            final(self).slots() == old(self).slots(),
            index >= old(self).view().len() ==> r is None && final(self).view() == old(
                self,
            ).view(),
            index < old(self).view().len() ==> r is Some && *r->0 == old(self).view()[index as int]
                && final(self).view() == old(self).view().update(index as int, *final(r->0)),
        no_unwind
    {
        match self.handle_at(index) {
            Some(at) => Some(self.element_mut(at, Ghost(index as int))),
            None => None,
        }
    }

    /// Links a new node that holds `element` between the neighbouring nodes
    /// `left` and `right`, so that it comes to stand at position `index`.
    fn splice(&mut self, left: usize, right: usize, element: T, Ghost(index): Ghost<int>)
        requires
            old(self).wf(),
            0 < index < old(self).view().len(),
            left == old(self).order@[index - 1],
            right == old(self).order@[index],
        ensures
            final(self).wf(),
            final(self).view() == old(self).view().insert(index, element),
    {
        let handle = self.nodes.len();
        let mut node = Node::new(element);
        node.prev = Some(left);
        node.next = Some(right);
        self.nodes.push(node);
        assert(self.nodes.len() == self.nodes@.len());
        self.nodes[left].next = Some(handle);
        self.nodes[right].prev = Some(handle);
        self.size = self.size + 1;
        let ghost before = *old(self);
        self.order = Ghost(before.order@.insert(index, handle));
        self.place = Ghost(
            Seq::new(
                before.place@.len() + 1,
                |h: int|
                    if h == handle {
                        index
                    } else if before.place@[h] >= index {
                        before.place@[h] + 1
                    } else {
                        before.place@[h]
                    },
            ),
        );
        proof {
            assert forall|i: int| 0 <= i < self.order@.len() implies (#[trigger] self.order@[i])
                < self.nodes@.len() && self.place@[self.order@[i] as int] == i by {
                if i < index {
                    assert(self.order@[i] == before.order@[i]);
                } else if i > index {
                    assert(self.order@[i] == before.order@[i - 1]);
                }
            }
            assert forall|h: int| 0 <= h < self.nodes@.len() && self.place@[h] >= 0 implies (
            #[trigger] self.nodes@[h]).prev == self.prev_of(h) && self.nodes@[h].next
                == self.next_of(h) by {
                if h != handle {
                    assert(before.place@[h] >= 0);
                    assert(before.nodes@[h].prev == before.prev_of(h));
                }
            }
            assert(self.view() =~= before.view().insert(index, element));
        }
    }

    /// Links a new node for `element` in behind the node at position `index`,
    /// and says whether there is such a node. Behind the last node this is a
    /// push to the back.
    pub(crate) fn insert_after(&mut self, index: usize, element: T) -> (ok: bool)
        requires
            old(self).wf(),
        ensures
            final(self).wf(),
            ok == (index < old(self).view().len()),
            ok ==> final(self).view() == old(self).view().insert(index + 1, element),
            !ok ==> final(self).view() == old(self).view(),
    {
        if index >= self.size {
            return false;
        }
        if index == self.size - 1 {
            self.push_back(element);
            assert(self.view() =~= old(self).view().insert(index + 1, element));
            return true;
        }
        let left = self.handle_at(index).unwrap();
        let right = self.nodes[left].next.unwrap();
        self.splice(left, right, element, Ghost(index + 1));
        true
    }

    /// Links a new node for `element` in before the node at position `index`,
    /// and says whether there is such a node. Before the first node this is a
    /// push to the front.
    pub(crate) fn insert_before(&mut self, index: usize, element: T) -> (ok: bool)
        requires
            old(self).wf(),
        ensures
            final(self).wf(),
            ok == (index < old(self).view().len()),
            ok ==> final(self).view() == old(self).view().insert(index as int, element),
            !ok ==> final(self).view() == old(self).view(),
    {
        if index >= self.size {
            return false;
        }
        if index == 0 {
            self.push_front(element);
            assert(self.view() =~= old(self).view().insert(0, element));
            return true;
        }
        let right = self.handle_at(index).unwrap();
        let left = self.nodes[right].prev.unwrap();
        self.splice(left, right, element, Ghost(index as int));
        true
    }

    /// Links the two neighbours of the node in slot `at`, which stands at
    /// position `index` and is neither the first nor the last node, directly
    /// to each other. The node stays in its slot, linked no longer.
    fn unlink(&mut self, at: usize, Ghost(index): Ghost<int>)
        requires
            old(self).wf(),
            0 < index < old(self).view().len() - 1,
            at == old(self).order@[index],
        ensures
            final(self).holed(at as int),
            final(self).view() == old(self).view().remove(index),
            final(self).nodes@[at as int].element == old(self).view()[index],
    {
        let left = self.nodes[at].prev.unwrap();
        let right = self.nodes[at].next.unwrap();
        self.nodes[left].next = Some(right);
        self.nodes[right].prev = Some(left);
        self.size = self.size - 1;
        let ghost before = *old(self);
        self.order = Ghost(before.order@.remove(index));
        self.place = Ghost(
            Seq::new(
                before.place@.len(),
                |h: int|
                    if h == at {
                        -1
                    } else if before.place@[h] > index {
                        before.place@[h] - 1
                    } else {
                        before.place@[h]
                    },
            ),
        );
        proof {
            assert(left == before.order@[index - 1] && right == before.order@[index + 1]) by {
                assert(before.nodes@[at as int].prev == before.prev_of(at as int));
            }
            assert forall|i: int| 0 <= i < self.order@.len() implies (#[trigger] self.order@[i])
                < self.nodes@.len() && self.place@[self.order@[i] as int] == i by {
                if i < index {
                    assert(self.order@[i] == before.order@[i]);
                } else {
                    assert(self.order@[i] == before.order@[i + 1]);
                }
            }
            assert forall|h: int| 0 <= h < self.nodes@.len() && self.place@[h] >= 0 implies (
            #[trigger] self.nodes@[h]).prev == self.prev_of(h) && self.nodes@[h].next
                == self.next_of(h) by {
                assert(before.place@[h] >= 0);
                assert(before.nodes@[h].prev == before.prev_of(h));
            }
            assert forall|x: int| 0 <= x < self.nodes@.len() implies ((#[trigger] self.place@[x])
                >= 0 <==> x != at) by {
                assert(before.place@[x] >= 0);
            }
            assert(self.view() =~= before.view().remove(index));
        }
    }

    /// Takes the node at position `index` out of the chain, releases it and
    /// hands out its element; `None` where there is no such node. At the
    /// first position this is a pop from the front, at the last position a
    /// pop from the back.
    pub(crate) fn remove(&mut self, index: usize) -> (r: Option<T>)
        requires
            old(self).wf(),
        ensures
            final(self).wf(),
            index >= old(self).view().len() ==> r is None && final(self).view() == old(
                self,
            ).view(),
            index < old(self).view().len() ==> r == Some(old(self).view()[index as int])
                && final(self).view() == old(self).view().remove(index as int),
    {
        if index >= self.size {
            return None;
        }
        if index == 0 {
            let r = self.pop_front();
            assert(self.view() =~= old(self).view().remove(0));
            return r;
        }
        if index == self.size - 1 {
            let r = self.pop_back();
            assert(self.view() =~= old(self).view().remove(index as int));
            return r;
        }
        let at = self.handle_at(index).unwrap();
        self.unlink(at, Ghost(index as int));
        let node = self.release(at);
        Some(node.element)
    }
}

} // verus!
