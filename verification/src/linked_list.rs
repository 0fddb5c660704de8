//! A singly linked list that owns its nodes, with the front as its only
//! open end.

use vstd::pervasive::cloned;
use vstd::prelude::*;
use vstd::std_specs::cmp::PartialEqSpec;

verus! {

/// One cell of a list: a value and the cells after it.
pub struct Node<T: Clone + PartialEq> {
    value: T,
    next: Option<Box<Node<T>>>,
}

/// The values of a chain of cells, front first.
pub closed spec fn chain<T: Clone + PartialEq>(link: Option<Box<Node<T>>>) -> Seq<T>
    decreases link,
{
    match link {
        None => Seq::empty(),
        Some(node) => seq![node.value] + chain(node.next),
    }
}

impl<T: Clone + PartialEq> View for Node<T> {
    type V = Seq<T>;

    /// The value of this cell followed by those of the cells after it.
    closed spec fn view(&self) -> Seq<T> {
        seq![self.value] + chain(self.next)
    }
}

impl<T: Clone + PartialEq> Node<T> {
    /// A cell that holds `value` in front of the chain `next`.
    pub fn new(value: T, next: Option<Box<Node<T>>>) -> (node: Node<T>)
        ensures
            node@ == seq![value] + chain(next),
            node@.len() == chain(next).len() + 1,
            node@[0] == value,
    {
        Node { value, next }
    }
}

impl<T: Clone + PartialEq> Clone for Node<T> {
    /// Clones the value of this cell and of every cell after it.
    fn clone(&self) -> (copy: Self)
        ensures
            copy@.len() == self@.len(),
            forall|i: int| 0 <= i < self@.len() ==> cloned::<T>(#[trigger] self@[i], copy@[i]),
        decreases self,
    {
        let next: Option<Box<Node<T>>> = match &self.next {
            Some(node) => Some(Box::new((&**node).clone())),
            None => None,
        };
        let copy = Node { value: self.value.clone(), next };
        proof {
            assert forall|i: int| 0 <= i < self@.len() implies cloned::<T>(
                #[trigger] self@[i],
                copy@[i],
            ) by {
                if i > 0 {
                    assert(self@[i] == chain(self.next)[i - 1]);
                    assert(copy@[i] == chain(copy.next)[i - 1]);
                    assert(chain(self.next) == self.next.unwrap()@);
                    assert(chain(copy.next) == copy.next.unwrap()@);
                }
            }
        }
        copy
    }
}

/// A singly linked list.
pub struct LinkedList<T> where T: Clone + PartialEq {
    head: Option<Box<Node<T>>>,
    size: usize,
}

impl<T: Clone + PartialEq> View for LinkedList<T> {
    type V = Seq<T>;

    /// The values of the list, front first.
    closed spec fn view(&self) -> Seq<T> {
        chain(self.head)
    }
}

/// Whether two sequences have the same length and hold, place by place,
/// values that `T` takes for equal.
pub open spec fn equal_items<T: PartialEq>(a: Seq<T>, b: Seq<T>) -> bool {
    &&& a.len() == b.len()
    &&& forall|i: int| 0 <= i < a.len() ==> (#[trigger] a[i]).eq_spec(&b[i])
}

impl<T: Clone + PartialEq> LinkedList<T> {
    /// The invariant of the list: the recorded size is the number of values.
    pub closed spec fn wf(&self) -> bool {
        self.size == chain(self.head).len()
    }

    /// An empty list.
    pub fn new() -> (list: LinkedList<T>)
        ensures
            list.wf(),
            list@ == Seq::<T>::empty(),
    {
        LinkedList { head: None, size: 0 }
    }

    /// The number of values in the list.
    pub fn get_size(&self) -> (size: usize)
        requires
            self.wf(),
        ensures
            size == self@.len(),
    {
        self.size
    }

    /// Whether the list holds no value.
    pub fn is_empty(&self) -> (empty: bool)
        requires
            self.wf(),
        ensures
            empty == (self@.len() == 0),
    {
        self.get_size() == 0
    }

    /// Puts `value` in front of all others.
    pub fn push_front(&mut self, value: T)
        requires
            old(self).wf(),
            old(self)@.len() < usize::MAX,
        ensures
            final(self).wf(),
            final(self)@ == seq![value] + old(self)@,
    {
        let rest: Option<Box<Node<T>>> = self.head.take();
        let new_node: Box<Node<T>> = Box::new(Node::new(value, rest));
        self.head = Some(new_node);
        self.size += 1;
    }

    /// Takes the front value out of the list. `None` if the list is empty.
    pub fn pop_front(&mut self) -> (front: Option<T>)
        requires
            old(self).wf(),
        ensures
            final(self).wf(),
            match front {
                Some(value) => old(self)@.len() > 0 && value == old(self)@[0] && final(self)@
                    == old(self)@.drop_first(),
                None => old(self)@.len() == 0 && final(self)@ == old(self)@,
            },
    {
        match self.head.take() {
            Some(node) => {
                let node: Node<T> = *node;
                proof {
                    assert((seq![node.value] + chain(node.next)).drop_first() =~= chain(node.next));
                }
                self.head = node.next;
                self.size -= 1;
                Some(node.value)
            },
            None => None,
        }
    }

    /// A reader that stands before the front value.
    pub fn iter<'a>(&'a self) -> (reader: ListIterator<'a, T>)
        ensures
            reader@ == self@,
    {
        ListIterator { current: &self.head }
    }
}

impl<T: Clone + PartialEq> PartialEq for LinkedList<T> {
    /// Whether this list and `other` have the same size and hold, place by
    /// place, values that are equal by `T`'s own `==`.
    fn eq(&self, other: &Self) -> (same: bool) {
        if self.size != other.size {
            return false;
        }
        let mut mine = self.iter();
        let mut theirs = other.iter();
        let ghost mut done: int = 0;
        loop
            invariant
                0 <= done <= self@.len(),
                done <= other@.len(),
                self.size == other.size,
                mine@ == self@.skip(done),
                theirs@ == other@.skip(done),
                T::obeys_eq_spec() ==> forall|i: int|
                    0 <= i < done ==> (#[trigger] self@[i]).eq_spec(&other@[i]),
            decreases self@.len() - done,
        {
            match mine.next() {
                Some(a) => match theirs.next() {
                    Some(b) => {
                        assert(*a == self@[done] && *b == other@[done]);
                        if a.ne(b) {
                            return false;
                        }
                        proof {
                            assert(self@.skip(done).drop_first() =~= self@.skip(done + 1));
                            assert(other@.skip(done).drop_first() =~= other@.skip(done + 1));
                            done = done + 1;
                        }
                    },
                    None => {
                        return false;
                    },
                },
                None => {
                    return theirs.next().is_none();
                },
            }
        }
    }
}

impl<T: Clone + PartialEq> vstd::std_specs::cmp::PartialEqSpecImpl for LinkedList<T> {
    open spec fn obeys_eq_spec() -> bool {
        T::obeys_eq_spec()
    }

    /// What `==` means on lists: the same recorded size and, place by place,
    /// values that `T` takes for equal.
    closed spec fn eq_spec(&self, other: &Self) -> bool {
        self.size == other.size && equal_items(self@, other@)
    }
}

/// On lists that keep their invariant, `==` says whether the two hold, place
/// by place, values that `T` takes for equal.
pub proof fn lemma_list_equality<T: Clone + PartialEq>(a: LinkedList<T>, b: LinkedList<T>)
    requires
        a.wf(),
        b.wf(),
    ensures
        a.eq_spec(&b) == equal_items(a@, b@),
{
}

impl<T: Clone + PartialEq> Drop for LinkedList<T> {
    /// Frees the cells one by one from the front, so that a long list does
    /// not take a deep recursion to free.
    fn drop(&mut self)
        opens_invariants none
        no_unwind
    {
        let mut current: Option<Box<Node<T>>> = None;
        core::mem::swap(&mut current, &mut self.head);
        loop
            decreases chain(current).len(),
        {
            match current {
                Some(node) => {
                    let node: Node<T> = *node;
                    current = node.next;
                },
                None => {
                    break ;
                },
            }
        }
    }
}

impl<T: Clone + PartialEq> Clone for LinkedList<T> {
    /// Clones every value into a list of its own.
    fn clone(&self) -> (copy: Self)
        ensures
            self.wf() ==> copy.wf(),
            copy@.len() == self@.len(),
            forall|i: int| 0 <= i < self@.len() ==> cloned::<T>(#[trigger] self@[i], copy@[i]),
    {
        let head: Option<Box<Node<T>>> = match &self.head {
            Some(node) => Some(Box::new((&**node).clone())),
            None => None,
        };
        let copy = LinkedList { head, size: self.size };
        proof {
            if self.head.is_some() {
                assert(chain(self.head) == self.head.unwrap()@);
                assert(chain(copy.head) == copy.head.unwrap()@);
            }
        }
        copy
    }
}

/// A reader of a list: it walks from the front to the back and hands out a
/// reference to each value it passes.
pub struct ListIterator<'a, T> where T: Clone + PartialEq {
    current: &'a Option<Box<Node<T>>>,
}

impl<'a, T: Clone + PartialEq> View for ListIterator<'a, T> {
    type V = Seq<T>;

    /// The values that are still to come, next one first.
    closed spec fn view(&self) -> Seq<T> {
        chain(*self.current)
    }
}

impl<'a, T: Clone + PartialEq> ListIterator<'a, T> {
    /// Hands out the next value and steps past it. `None` at the end.
    pub fn next(&mut self) -> (item: Option<&'a T>)
        ensures
            match item {
                Some(value) => old(self)@.len() > 0 && *value == old(self)@[0] && final(self)@
                    == old(self)@.drop_first(),
                None => old(self)@.len() == 0 && final(self)@ == old(self)@,
            },
    {
        let current: &'a Option<Box<Node<T>>> = self.current;
        match current {
            Some(node) => {
                proof {
                    assert((seq![node.value] + chain(node.next)).drop_first() =~= chain(node.next));
                }
                self.current = &node.next;
                Some(&node.value)
            },
            None => None,
        }
    }
}

} // verus!
