//! Growable array: the kernel's own vector, reframed over checked storage.

use vstd::prelude::*;

verus! {

/// A growable array of `T`.
pub struct DynamicArray<T> {
    data: Vec<T>,
}

/// A cursor over a [`DynamicArray`], advanced by hand.
pub struct DynamicArrayIter {
    pub index: usize,
}

impl<T> DynamicArray<T> {
    /// The elements in order.
    pub closed spec fn view(&self) -> Seq<T> {
        self.data@
    }

    /// An empty array.
    pub fn new() -> (a: Self)
        ensures
            a.view() == Seq::<T>::empty(),
    {
        DynamicArray { data: Vec::new() }
    }

    /// Resets the array to empty, releasing its storage.
    pub fn init(&mut self)
        ensures
            final(self).view() == Seq::<T>::empty(),
    {
        self.data.clear();
    }

    /// Appends `element`.
    pub fn push(&mut self, element: T)
        ensures
            final(self).view() == old(self).view().push(element),
    {
        self.data.push(element);
    }

    /// Removes and returns the last element.
    pub fn pop(&mut self) -> (r: Option<T>)
        ensures
            old(self).view().len() == 0 ==> r is None && final(self).view() == old(self).view(),
            old(self).view().len() > 0 ==> r == Some(old(self).view().last()) && final(self).view()
                == old(self).view().drop_last(),
    {
        self.data.pop()
    }

    /// Swaps the elements at `index1` and `index2`.
    pub fn swap(&mut self, index1: usize, index2: usize)
        requires
            index1 < old(self).view().len(),
            index2 < old(self).view().len(),
        ensures
            final(self).view() == old(self).view().update(
                index1 as int,
                old(self).view()[index2 as int],
            ).update(index2 as int, old(self).view()[index1 as int]),
    {
        if index1 == index2 {
            proof {
                assert(self.data@ =~= old(self).view().update(
                    index1 as int,
                    old(self).view()[index2 as int],
                ).update(index2 as int, old(self).view()[index1 as int]));
            }
        } else {
            let first = if index1 < index2 {
                index1
            } else {
                index2
            };
            let second = if index1 < index2 {
                index2
            } else {
                index1
            };
            let b = self.data.remove(second);
            let a = self.data.remove(first);
            self.data.insert(first, b);
            self.data.insert(second, a);
            proof {
                assert(self.data@ =~= old(self).view().update(
                    index1 as int,
                    old(self).view()[index2 as int],
                ).update(index2 as int, old(self).view()[index1 as int]));
            }
        }
    }

    /// Removes every element.
    pub fn empty(&mut self)
        ensures
            final(self).view() == Seq::<T>::empty(),
    {
        self.data.clear();
    }

    /// Releases the array's storage.
    pub fn free(&mut self)
        ensures
            final(self).view() == Seq::<T>::empty(),
    {
        self.data.clear();
    }

    /// Whether the array holds nothing.
    pub fn is_empty(&self) -> (r: bool)
        ensures
            r == (self.view().len() == 0),
    {
        self.data.len() == 0
    }

    /// Number of elements.
    pub fn length(&self) -> (n: usize)
        ensures
            n == self.view().len(),
    {
        self.data.len()
    }

    /// The element at `index`.
    pub fn get(&self, index: usize) -> (r: &T)
        requires
            index < self.view().len(),
        ensures
            *r == self.view()[index as int],
    {
        &self.data[index]
    }

    /// Replaces the element at `index`.
    pub fn set(&mut self, index: usize, value: T)
        requires
            index < old(self).view().len(),
        ensures
            final(self).view() == old(self).view().update(index as int, value),
    {
        self.data.set(index, value);
    }

    /// A cursor starting at the first element.
    pub fn iter(&self) -> (it: DynamicArrayIter)
        ensures
            it.index == 0,
    {
        DynamicArrayIter { index: 0 }
    }

    /// The first index at which `func` accepts the element together with
    /// `key`, scanning in order.
    pub fn find_where<F: Fn(&T, usize) -> bool>(&self, func: &F, key: usize) -> (r: Option<usize>)
        requires
            forall|x: (&T, usize)| #[trigger] call_requires(*func, x),
        ensures
            r matches Some(i) ==> i < self.view().len(),
    {
        let mut i: usize = 0;
        while i < self.data.len()
            invariant
                i <= self.data.len(),
                forall|x: (&T, usize)| #[trigger] call_requires(*func, x),
            decreases self.data.len() - i,
        {
            if func(&self.data[i], key) {
                return Some(i);
            }
            i = i + 1;
        }
        None
    }
}

impl DynamicArrayIter {
    /// The element under the cursor, advancing it; `None` past the end.
    pub fn next<'a, T>(&mut self, arr: &'a DynamicArray<T>) -> (r: Option<&'a T>)
        ensures
            old(self).index < arr.view().len() ==> (r matches Some(v) && *v == arr.view()[old(self).index as int] && final(self).index == old(self).index + 1),
            old(self).index >= arr.view().len() ==> r is None && final(self).index == old(
                self,
            ).index,
    {
        if self.index < arr.length() {
            let v = arr.get(self.index);
            self.index = self.index + 1;
            Some(v)
        } else {
            None
        }
    }
}

} // verus!
