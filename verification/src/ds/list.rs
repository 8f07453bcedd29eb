//! Doubly linked list held as an index-addressed sequence, so every
//! link follows a checked position instead of a raw pointer.

use vstd::prelude::*;

verus! {

/// One node as the intrusive layout stored it: the payload and the
/// neighbour indices of the linked form.
pub struct ListNode<T> {
    pub payload: T,
    pub prev: Option<usize>,
    pub next: Option<usize>,
}

impl<T> ListNode<T> {
    /// Sets the node's payload and neighbour links.
    pub fn init(&mut self, payload: T, prev: Option<usize>, next: Option<usize>)
        ensures
            final(self).payload == payload,
            final(self).prev == prev,
            final(self).next == next,
    {
        self.payload = payload;
        self.prev = prev;
        self.next = next;
    }
}

/// The list itself, in front-to-back order.
pub struct List<T> {
    items: Vec<T>,
}

/// A cursor over a [`List`], advanced by hand.
pub struct ListIterator {
    pub current: usize,
}

/// A cursor for in-place edits, advanced by hand.
pub struct MutListIterator {
    pub current: usize,
}

impl<T> List<T> {
    /// The elements front to back.
    pub closed spec fn view(&self) -> Seq<T> {
        self.items@
    }

    /// An empty list.
    pub fn new() -> (l: Self)
        ensures
            l.view() == Seq::<T>::empty(),
    {
        List { items: Vec::new() }
    }

    /// Number of elements.
    pub fn length(&self) -> (n: usize)
        ensures
            n == self.view().len(),
    {
        self.items.len()
    }

    /// Prepends `payload` at the front.
    pub fn push_front(&mut self, payload: T)
        ensures
            final(self).view() == seq![payload].add(old(self).view()),
    {
        self.items.insert(0, payload);
        proof {
            assert(self.items@ =~= seq![payload].add(old(self).view()));
        }
    }

    /// Appends `payload` at the back.
    pub fn push_back(&mut self, payload: T)
        ensures
            final(self).view() == old(self).view().push(payload),
    {
        self.items.push(payload);
    }

    /// The element at `index`, if any.
    pub fn get(&self, index: usize) -> (r: Option<&T>)
        ensures
            index < self.view().len() ==> (r matches Some(v) && *v == self.view()[index as int]),
            index >= self.view().len() ==> r is None,
    {
        if index < self.items.len() {
            Some(&self.items[index])
        } else {
            None
        }
    }

    /// Removes and returns the element at `index`; out of range, nothing
    /// happens.
    pub fn remove(&mut self, index: usize) -> (r: Option<T>)
        ensures
            index < old(self).view().len() ==> (r matches Some(v) && v == old(self).view()[index as int] && final(self).view() == old(self).view().remove(index as int)),
            index >= old(self).view().len() ==> r is None && final(self).view() == old(
                self,
            ).view(),
    {
        if index < self.items.len() {
            Some(self.items.remove(index))
        } else {
            None
        }
    }

    /// A cursor starting at the front.
    pub fn iter(&self) -> (it: ListIterator)
        ensures
            it.current == 0,
    {
        ListIterator { current: 0 }
    }

    /// An editing cursor starting at the front.
    pub fn iter_mut(&mut self) -> (it: MutListIterator)
        ensures
            it.current == 0,
            final(self).view() == old(self).view(),
    {
        MutListIterator { current: 0 }
    }
}

impl ListIterator {
    /// The element under the cursor, advancing it; `None` past the end.
    pub fn next<'a, T>(&mut self, list: &'a List<T>) -> (r: Option<&'a T>)
        ensures
            old(self).current < list.view().len() ==> (r matches Some(v) && *v == list.view()[old(self).current as int] && final(self).current == old(self).current + 1),
            old(self).current >= list.view().len() ==> r is None && final(self).current == old(
                self,
            ).current,
    {
        if self.current < list.length() {
            let r = list.get(self.current);
            self.current = self.current + 1;
            r
        } else {
            None
        }
    }
}

impl MutListIterator {
    /// Replaces the element under the cursor and advances; `false` past
    /// the end.
    pub fn set_next<T>(&mut self, list: &mut List<T>, value: T) -> (r: bool)
        ensures
            old(self).current < old(list).view().len() ==> (r && final(list).view() == old(
                list,
            ).view().update(old(self).current as int, value) && final(self).current == old(
                self,
            ).current + 1),
            old(self).current >= old(list).view().len() ==> !r && final(list).view() == old(
                list,
            ).view() && final(self).current == old(self).current,
    {
        if self.current < list.items.len() {
            list.items.set(self.current, value);
            self.current = self.current + 1;
            true
        } else {
            false
        }
    }
}

} // verus!
