//! LIFO stack over the kernel's list type.

use vstd::prelude::*;

use crate::ds::list::{List, ListIterator, MutListIterator};

verus! {

/// A stack whose top is the front of the underlying list.
pub struct Stack<T> {
    list: List<T>,
}

impl<T> Stack<T> {
    /// The elements, top first.
    pub closed spec fn view(&self) -> Seq<T> {
        self.list.view()
    }

    /// An empty stack.
    pub fn new() -> (s: Self)
        ensures
            s.view() == Seq::<T>::empty(),
    {
        Stack { list: List::new() }
    }

    /// Removes and returns the top element.
    pub fn pop(&mut self) -> (r: Option<T>)
        ensures
            old(self).view().len() == 0 ==> r is None && final(self).view() == old(self).view(),
            old(self).view().len() > 0 ==> (r matches Some(v) && v == old(self).view()[0]
                && final(self).view() == old(self).view().remove(0)),
    {
        self.list.remove(0)
    }

    /// Pops everything.
    pub fn empty(&mut self)
        ensures
            final(self).view() == Seq::<T>::empty(),
    {
        while self.list.length() > 0
            decreases self.list.view().len(),
        {
            self.list.remove(0);
        }
        proof {
            assert(self.view() =~= Seq::<T>::empty());
        }
    }

    /// Pushes `payload` on top.
    pub fn push(&mut self, payload: T)
        ensures
            final(self).view() == seq![payload].add(old(self).view()),
    {
        self.list.push_front(payload);
    }

    /// The element at `index` from the top.
    pub fn get(&self, index: usize) -> (r: Option<&T>)
        ensures
            index < self.view().len() ==> (r matches Some(v) && *v == self.view()[index as int]),
            index >= self.view().len() ==> r is None,
    {
        self.list.get(index)
    }

    /// The top element.
    pub fn peek(&self) -> (r: Option<&T>)
        ensures
            self.view().len() == 0 ==> r is None,
            self.view().len() > 0 ==> (r matches Some(v) && *v == self.view()[0]),
    {
        self.list.get(0)
    }

    /// Removes and returns the element at `index` from the top.
    pub fn remove(&mut self, index: usize) -> (r: Option<T>)
        ensures
            index < old(self).view().len() ==> (r matches Some(v) && v == old(self).view()[index as int] && final(self).view() == old(self).view().remove(index as int)),
            index >= old(self).view().len() ==> r is None && final(self).view() == old(
                self,
            ).view(),
    {
        self.list.remove(index)
    }

    /// Number of elements, as an executable view of the stack's length.
    pub fn view_len(&self) -> (n: usize)
        ensures
            n == self.view().len(),
    {
        self.list.length()
    }

    /// A cursor from the top down.
    pub fn iter(&self) -> (it: ListIterator)
        ensures
            it.current == 0,
    {
        self.list.iter()
    }

    /// An editing cursor from the top down.
    pub fn iter_mut(&mut self) -> (it: MutListIterator)
        ensures
            it.current == 0,
            final(self).view() == old(self).view(),
    {
        self.list.iter_mut()
    }

    /// Replaces the element at `index` from the top.
    pub fn set(&mut self, index: usize, value: T) -> (r: bool)
        ensures
            index < old(self).view().len() ==> r && final(self).view() == old(self).view().update(
                index as int,
                value,
            ),
            index >= old(self).view().len() ==> !r && final(self).view() == old(self).view(),
    {
        let mut it = self.list.iter_mut();
        it.current = index;
        it.set_next(&mut self.list, value)
    }

    /// The first index from the top at which `func` accepts the element
    /// together with `key`.
    pub fn find_where<F: Fn(&T, usize) -> bool>(&self, func: &F, key: usize) -> (r: Option<usize>)
        requires
            forall|x: (&T, usize)| #[trigger] call_requires(*func, x),
        ensures
            r matches Some(i) ==> i < self.view().len(),
    {
        let mut i: usize = 0;
        let n = self.list.length();
        while i < n
            invariant
                i <= n,
                n == self.view().len(),
                forall|x: (&T, usize)| #[trigger] call_requires(*func, x),
            decreases n - i,
        {
            match self.list.get(i) {
                Some(v) => {
                    if func(v, key) {
                        return Some(i);
                    }
                }
                None => {}
            }
            i = i + 1;
        }
        None
    }
}

} // verus!
