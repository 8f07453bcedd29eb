//! FIFO queue over the kernel list, and the binary min-heap priority
//! queue used by the scheduler: the entry with the smallest priority
//! value leaves first.

use vstd::prelude::*;

use crate::ds::dynarray::DynamicArray;
use crate::ds::list::{List, ListIterator};

verus! {

/// A FIFO queue.
pub struct Queue<T> {
    pub list: List<T>,
}

impl<T> Queue<T> {
    /// The elements, front first.
    pub closed spec fn view(&self) -> Seq<T> {
        self.list.view()
    }

    /// An empty queue.
    pub fn new() -> (q: Self)
        ensures
            q.view() == Seq::<T>::empty(),
    {
        Queue { list: List::new() }
    }

    /// Appends `payload` at the back.
    pub fn enqueue(&mut self, payload: T)
        ensures
            final(self).view() == old(self).view().push(payload),
    {
        self.list.push_back(payload);
    }

    /// Removes and returns the front element.
    pub fn dequeue(&mut self) -> (r: Option<T>)
        ensures
            old(self).view().len() == 0 ==> r is None && final(self).view() == old(self).view(),
            old(self).view().len() > 0 ==> (r matches Some(v) && v == old(self).view()[0]
                && final(self).view() == old(self).view().remove(0)),
    {
        self.list.remove(0)
    }

    /// Dequeues everything.
    pub fn empty(&mut self)
        ensures
            final(self).view() == Seq::<T>::empty(),
    {
        while self.list.length() > 0
            decreases self.list.view().len(),
        {
            self.list.remove(0);
        }
        proof {
            assert(self.view() =~= Seq::<T>::empty());
        }
    }

    /// The element at `index` from the front.
    pub fn get_element(&self, index: usize) -> (r: Option<&T>)
        ensures
            index < self.view().len() ==> (r matches Some(v) && *v == self.view()[index as int]),
            index >= self.view().len() ==> r is None,
    {
        self.list.get(index)
    }

    /// The front element.
    pub fn peek(&self) -> (r: Option<&T>)
        ensures
            self.view().len() == 0 ==> r is None,
            self.view().len() > 0 ==> (r matches Some(v) && *v == self.view()[0]),
    {
        self.list.get(0)
    }

    /// Number of elements.
    pub fn length(&self) -> (n: usize)
        ensures
            n == self.view().len(),
    {
        self.list.length()
    }

    /// A cursor from the front.
    pub fn iter(&self) -> (it: ListIterator)
        ensures
            it.current == 0,
    {
        self.list.iter()
    }
}

/// Any payload tagged with a scheduling priority; smaller values leave
/// the priority queue first.
pub struct PriorityWrapper<T> {
    pub priority: usize,
    pub value: T,
}

impl<T> PriorityWrapper<T> {
    /// Tags `payload` with `priority`.
    pub fn new(payload: T, priority: usize) -> (w: PriorityWrapper<T>)
        ensures
            w.priority == priority,
            w.value == payload,
    {
        PriorityWrapper { priority, value: payload }
    }
}

/// Priority of the element at `i`.
pub open spec fn pr<T>(s: Seq<PriorityWrapper<T>>, i: int) -> int {
    s[i].priority as int
}

/// Index of the parent of heap position `i`.
pub open spec fn heap_parent(i: int) -> int {
    (i - 1) / 2
}

/// The binary min-heap shape: every node is at most its children.
pub open spec fn is_heap<T>(s: Seq<PriorityWrapper<T>>) -> bool {
    forall|i: int| 1 <= i < s.len() ==> pr(s, heap_parent(i)) <= #[trigger] pr(s, i)
}

/// The heap shape everywhere except on the edge into `j`.
pub open spec fn heap_except_up<T>(s: Seq<PriorityWrapper<T>>, j: int) -> bool {
    &&& forall|i: int| 1 <= i < s.len() && i != j ==> pr(s, heap_parent(i)) <= #[trigger] pr(s, i)
    &&& j >= 1 ==> forall|c: int|
        1 <= c < s.len() && heap_parent(c) == j ==> pr(s, heap_parent(j)) <= #[trigger] pr(s, c)
}

/// The heap shape everywhere except on the edges out of `j`.
pub open spec fn heap_except_down<T>(s: Seq<PriorityWrapper<T>>, j: int) -> bool {
    &&& forall|i: int|
        1 <= i < s.len() && heap_parent(i) != j ==> pr(s, heap_parent(i)) <= #[trigger] pr(s, i)
    &&& j >= 1 ==> forall|c: int|
        1 <= c < s.len() && heap_parent(c) == j ==> pr(s, heap_parent(j)) <= #[trigger] pr(s, c)
}

/// In a heap the root carries the smallest priority.
pub proof fn lemma_heap_root_min<T>(s: Seq<PriorityWrapper<T>>, i: int)
    requires
        is_heap(s),
        0 <= i < s.len(),
    ensures
        pr(s, 0) <= pr(s, i),
    decreases i,
{
    if i >= 1 {
        assert(pr(s, heap_parent(i)) <= pr(s, i));
        lemma_heap_root_min(s, heap_parent(i));
    }
}

/// The scheduler's priority queue: a binary min-heap held in a growable
/// array.
pub struct PriorityQueue<T> {
    pub nodes: DynamicArray<PriorityWrapper<T>>,
}

impl<T> PriorityQueue<T> {
    /// The heap's contents in array order.
    pub closed spec fn view(&self) -> Seq<PriorityWrapper<T>> {
        self.nodes.view()
    }

    /// Queue invariant: the array is heap-shaped.
    pub open spec fn wf(&self) -> bool {
        is_heap(self.view())
    }

    /// An empty queue.
    pub fn new() -> (q: Self)
        ensures
            q.wf(),
            q.view() == Seq::<PriorityWrapper<T>>::empty(),
    {
        PriorityQueue { nodes: DynamicArray::new() }
    }

    /// Resets the queue to empty.
    pub fn init(&mut self)
        ensures
            final(self).wf(),
            final(self).view() == Seq::<PriorityWrapper<T>>::empty(),
    {
        self.nodes.init();
    }

    /// Whether nothing is queued.
    pub fn is_empty(&self) -> (r: bool)
        ensures
            r == (self.view().len() == 0),
    {
        self.nodes.is_empty()
    }

    /// Number of queued entries.
    pub fn len(&self) -> (n: usize)
        ensures
            n == self.view().len(),
    {
        self.nodes.length()
    }

    /// Queues `payload` under `priority`: the entry is appended and then
    /// swum up until the heap shape holds again.  The stored multiset
    /// grows by exactly the new pair.
    pub fn enqueue(&mut self, payload: T, priority: usize)
        requires
            old(self).wf(),
        ensures
            final(self).wf(),
            final(self).view().len() == old(self).view().len() + 1,
            final(self).view().to_multiset() == old(self).view().to_multiset().insert(
                PriorityWrapper { priority, value: payload },
            ),
            exists|i: int|
                0 <= i < final(self).view().len() && final(self).view()[i].priority == priority
                    && #[trigger] final(self).view()[i].value == payload,
    {
        let node = PriorityWrapper::new(payload, priority);
        let ghost node_g = node;
        self.nodes.push(node);
        proof {
            assert(self.view()[self.view().len() - 1] == node_g);
            assert(self.view().contains(node_g));
            old(self).view().to_multiset_ensures();
            assert(self.view().to_multiset() =~= old(self).view().to_multiset().insert(node_g));
            let s = self.view();
            let j = s.len() - 1;
            assert forall|i: int| 1 <= i < s.len() && i != j implies pr(s, heap_parent(i)) <= (
            #[trigger] pr(s, i)) by {
                assert(pr(old(self).view(), heap_parent(i)) <= pr(old(self).view(), i));
            }
            assert forall|c: int| 1 <= c < s.len() && heap_parent(c) == j implies pr(
                s,
                heap_parent(j),
            ) <= #[trigger] pr(s, c) by {
                assert(heap_parent(c) < c);
                assert(false);
            }
            assert(heap_except_up(s, j));
        }
        self.swim();
        proof {
            assert(self.view().contains(node_g));
            let w = choose|i: int| 0 <= i < self.view().len() && self.view()[i] == node_g;
            assert(self.view()[w].priority == priority && self.view()[w].value == payload);
        }
    }

    /// Moves the last entry up until its parent is at most it, restoring
    /// the heap shape after a push.
    pub fn swim(&mut self)
        requires
            old(self).view().len() > 0,
            heap_except_up(old(self).view(), old(self).view().len() - 1),
        ensures
            final(self).wf(),
            final(self).view().len() == old(self).view().len(),
            final(self).view().to_multiset() == old(self).view().to_multiset(),
            forall|x: PriorityWrapper<T>|
                final(self).view().contains(x) <==> old(self).view().contains(x),
    {
        let mut index: usize = self.nodes.length() - 1;
        while index > 0
            invariant
                0 <= index < self.view().len(),
                heap_except_up(self.view(), index as int),
                self.view().len() == old(self).view().len(),
                self.view().to_multiset() == old(self).view().to_multiset(),
                forall|x: PriorityWrapper<T>|
                    self.view().contains(x) <==> old(self).view().contains(x),
            decreases index,
        {
            let parent = (index - 1) / 2;
            let child_p = self.nodes.get(index).priority;
            let parent_p = self.nodes.get(parent).priority;
            if child_p < parent_p {
                let ghost s0 = self.view();
                self.nodes.swap(index, parent);
                proof {
                    lemma_swim_step(s0, self.view(), index as int);
                    lemma_swap_contains(s0, self.view(), index as int, parent as int);
                    lemma_swap_multiset(s0, self.view(), index as int, parent as int);
                }
                index = parent;
            } else {
                proof {
                    lemma_swim_done(self.view(), index as int);
                }
                return;
            }
        }
        proof {
            lemma_swim_done_root(self.view());
        }
    }

    /// Removes and returns the entry with the smallest priority value: the
    /// root is swapped with the last entry, popped, and the new root sunk
    /// back down.  Exactly the root leaves the stored multiset.
    pub fn dequeue(&mut self) -> (r: Option<T>)
        requires
            old(self).wf(),
        ensures
            final(self).wf(),
            old(self).view().len() == 0 ==> r is None && final(self).view() == old(self).view(),
            old(self).view().len() > 0 ==> {
                &&& r matches Some(v)
                &&& v == old(self).view()[0].value
                &&& forall|i: int|
                    0 <= i < old(self).view().len() ==> old(self).view()[0].priority <= (
                    #[trigger] old(self).view()[i]).priority
                &&& final(self).view().len() == old(self).view().len() - 1
                &&& final(self).view().to_multiset() == old(self).view().to_multiset().remove(
                    old(self).view()[0],
                )
            },
    {
        if self.nodes.is_empty() {
            return None;
        }
        proof {
            assert forall|i: int| 0 <= i < old(self).view().len() implies old(
                self,
            ).view()[0].priority <= (#[trigger] old(self).view()[i]).priority by {
                lemma_heap_root_min(old(self).view(), i);
            }
        }
        let last = self.nodes.length() - 1;
        let ghost pre_swap = self.view();
        self.nodes.swap(0, last);
        let ghost post_swap = self.view();
        proof {
            lemma_swap_multiset(pre_swap, post_swap, 0, last as int);
        }
        let wrapper = match self.nodes.pop() {
            Some(w) => w,
            None => {
                proof {
                    assert(false);
                }
                return None;
            }
        };
        proof {
            let s = self.view();
            post_swap.to_multiset_ensures();
            assert(s =~= post_swap.remove(post_swap.len() - 1));
            assert(post_swap[post_swap.len() - 1] == pre_swap[0]);
            assert(s.to_multiset() =~= old(self).view().to_multiset().remove(
                old(self).view()[0],
            ));
            assert forall|i: int| 1 <= i < s.len() && heap_parent(i) != 0 implies pr(
                s,
                heap_parent(i),
            ) <= #[trigger] pr(s, i) by {
                assert(pr(old(self).view(), heap_parent(i)) <= pr(old(self).view(), i));
            }
            assert(heap_except_down(s, 0));
        }
        self.sink(0);
        Some(wrapper.value)
    }

    /// Moves the entry at `index` down, swapping it with its smaller
    /// child, until no child is smaller, restoring the heap shape.
    #[verifier::rlimit(60)]
    pub fn sink(&mut self, index: usize)
        requires
            heap_except_down(old(self).view(), index as int),
            0 <= index as int <= old(self).view().len(),
        ensures
            final(self).wf(),
            final(self).view().len() == old(self).view().len(),
            final(self).view().to_multiset() == old(self).view().to_multiset(),
            forall|x: PriorityWrapper<T>|
                final(self).view().contains(x) <==> old(self).view().contains(x),
    {
        let mut j = index;
        let len = self.nodes.length();
        if j >= len {
            proof {
                lemma_sink_out(self.view(), j as int);
            }
            return;
        }
        while j < len / 2
            invariant
                0 <= j < self.view().len(),
                len == self.view().len(),
                heap_except_down(self.view(), j as int),
                self.view().len() == old(self).view().len(),
                self.view().to_multiset() == old(self).view().to_multiset(),
                forall|x: PriorityWrapper<T>|
                    self.view().contains(x) <==> old(self).view().contains(x),
            decreases len - j,
        {
            proof {
                assert(2 * j + 1 < len);
            }
            let left = 2 * j + 1;
            let right = left + 1;
            let smallest = if right < len && self.nodes.get(right).priority < self.nodes.get(
                left,
            ).priority {
                right
            } else {
                left
            };
            if self.nodes.get(smallest).priority < self.nodes.get(j).priority {
                let ghost s0 = self.view();
                self.nodes.swap(j, smallest);
                proof {
                    lemma_sink_step(s0, self.view(), j as int, smallest as int);
                    lemma_swap_contains(s0, self.view(), j as int, smallest as int);
                    lemma_swap_multiset(s0, self.view(), j as int, smallest as int);
                }
                j = smallest;
            } else {
                proof {
                    lemma_sink_done(self.view(), j as int);
                }
                return;
            }
        }
        proof {
            assert(2 * j as int + 1 >= len as int);
            lemma_sink_leaf(self.view(), j as int);
        }
    }
}



/// Updating one position replaces exactly that element in the stored
/// multiset.
proof fn lemma_update_multiset<A>(s: Seq<A>, i: int, v: A)
    requires
        0 <= i < s.len(),
    ensures
        s.update(i, v).to_multiset() =~= s.to_multiset().remove(s[i]).insert(v),
{
    let t = s.update(i, v);
    s.to_multiset_ensures();
    t.to_multiset_ensures();
    assert(t.remove(i) =~= s.remove(i));
    assert(t.remove(i).to_multiset() =~= t.to_multiset().remove(t[i]));
    assert(s.remove(i).to_multiset() =~= s.to_multiset().remove(s[i]));
    assert(t.to_multiset().remove(v) =~= s.to_multiset().remove(s[i]));
    assert(t[i] == v && t.contains(v));
    assert(t.to_multiset().count(v) > 0);
    assert forall|x: A|
        t.to_multiset().count(x) == s.to_multiset().remove(s[i]).insert(v).count(x) by {
        assert(t.to_multiset().remove(v).count(x) == s.to_multiset().remove(s[i]).count(x));
    }
    assert(t.to_multiset() =~= s.to_multiset().remove(s[i]).insert(v));
}

/// Swapping two positions keeps the stored multiset.
proof fn lemma_swap_multiset<A>(s: Seq<A>, t: Seq<A>, i: int, j: int)
    requires
        0 <= i < s.len(),
        0 <= j < s.len(),
        t == s.update(i, s[j]).update(j, s[i]),
    ensures
        t.to_multiset() =~= s.to_multiset(),
{
    if i == j {
        assert(t =~= s);
    } else {
        let t1 = s.update(i, s[j]);
        lemma_update_multiset(s, i, s[j]);
        assert(t1[j] == s[j]);
        lemma_update_multiset(t1, j, s[i]);
        assert(t.to_multiset() =~= t1.to_multiset().remove(s[j]).insert(s[i]));
        s.to_multiset_ensures();
        assert(s.contains(s[i]) && s.contains(s[j]));
        assert(s.to_multiset().count(s[i]) > 0 && s.to_multiset().count(s[j]) > 0);
        assert forall|x: A| t.to_multiset().count(x) == s.to_multiset().count(x) by {
            assert(t1.to_multiset().count(x) == s.to_multiset().remove(s[i]).insert(
                s[j],
            ).count(x));
        }
    }
}

/// Swapping two positions keeps exactly the same elements in the
/// sequence.
proof fn lemma_swap_contains<A>(s: Seq<A>, t: Seq<A>, i: int, j: int)
    requires
        0 <= i < s.len(),
        0 <= j < s.len(),
        t == s.update(i, s[j]).update(j, s[i]),
    ensures
        forall|x: A| t.contains(x) <==> s.contains(x),
{
    assert forall|x: A| t.contains(x) implies s.contains(x) by {
        let w = choose|w: int| 0 <= w < t.len() && t[w] == x;
        if w == j {
            assert(s[i] == x);
        } else if w == i {
            assert(s[j] == x);
        } else {
            assert(s[w] == x);
        }
    }
    assert forall|x: A| s.contains(x) implies t.contains(x) by {
        let w = choose|w: int| 0 <= w < s.len() && s[w] == x;
        if w == j {
            assert(t[if i == j { j } else { i }] == x);
        } else if w == i {
            assert(t[j] == x);
        } else {
            assert(t[w] == x);
        }
    }
}

/// Swapping a too-small entry with its parent keeps everything heap-shaped
/// but the edge into the parent's position.
proof fn lemma_swim_step<T>(s: Seq<PriorityWrapper<T>>, t: Seq<PriorityWrapper<T>>, j: int)
    requires
        1 <= j < s.len(),
        heap_except_up(s, j),
        pr(s, j) < pr(s, heap_parent(j)),
        t == s.update(j, s[heap_parent(j)]).update(heap_parent(j), s[j]),
    ensures
        heap_except_up(t, heap_parent(j)),
        t.len() == s.len(),
{
    let p = heap_parent(j);
    assert forall|i: int| 1 <= i < t.len() && i != p implies pr(t, heap_parent(i)) <= (
    #[trigger] pr(t, i)) by {
        if i == j {
            assert(pr(t, p) == pr(s, j) && pr(t, j) == pr(s, p));
        } else if heap_parent(i) == p {
            assert(pr(s, p) <= pr(s, i));
            assert(pr(t, i) == pr(s, i));
        } else if heap_parent(i) == j {
            assert(pr(s, heap_parent(j)) <= pr(s, i));
            assert(pr(t, j) == pr(s, p));
        } else {
            assert(pr(t, i) == pr(s, i) && pr(t, heap_parent(i)) == pr(s, heap_parent(i)));
            assert(pr(s, heap_parent(i)) <= pr(s, i));
        }
    }
    if p >= 1 {
        assert forall|c: int| 1 <= c < t.len() && heap_parent(c) == p implies pr(
            t,
            heap_parent(p),
        ) <= #[trigger] pr(t, c) by {
            assert(pr(t, heap_parent(p)) == pr(s, heap_parent(p)));
            assert(pr(s, heap_parent(p)) <= pr(s, p));
            if c == j {
                assert(pr(t, c) == pr(s, p));
            } else {
                assert(pr(t, c) == pr(s, c));
                assert(pr(s, p) <= pr(s, c));
            }
        }
    }
}

/// When the edge into `j` already holds, the whole heap shape holds.
proof fn lemma_swim_done<T>(s: Seq<PriorityWrapper<T>>, j: int)
    requires
        1 <= j < s.len(),
        heap_except_up(s, j),
        pr(s, heap_parent(j)) <= pr(s, j),
    ensures
        is_heap(s),
{
}

/// At the root nothing is above: the shape holds.
proof fn lemma_swim_done_root<T>(s: Seq<PriorityWrapper<T>>)
    requires
        s.len() > 0,
        heap_except_up(s, 0),
    ensures
        is_heap(s),
{
}

/// Swapping a too-large entry with its smaller child keeps everything
/// heap-shaped but the edges out of the child's position.
proof fn lemma_sink_step<T>(s: Seq<PriorityWrapper<T>>, t: Seq<PriorityWrapper<T>>, j: int, m: int)
    requires
        0 <= j < s.len(),
        1 <= m < s.len(),
        heap_parent(m) == j,
        heap_except_down(s, j),
        pr(s, m) < pr(s, j),
        forall|c: int| 1 <= c < s.len() && heap_parent(c) == j ==> pr(s, m) <= #[trigger] pr(s, c),
        t == s.update(j, s[m]).update(m, s[j]),
    ensures
        heap_except_down(t, m),
        t.len() == s.len(),
{
    assert forall|i: int| 1 <= i < t.len() && heap_parent(i) != m implies pr(t, heap_parent(i))
        <= #[trigger] pr(t, i) by {
        if i == m {
            assert(pr(t, j) == pr(s, m) && pr(t, m) == pr(s, j));
        } else if heap_parent(i) == j {
            assert(pr(s, m) <= pr(s, i));
            assert(pr(t, i) == pr(s, i));
            assert(pr(t, j) == pr(s, m));
        } else if i == j {
            assert(j >= 1);
            assert(pr(s, heap_parent(j)) <= pr(s, m));
            assert(pr(t, heap_parent(j)) == pr(s, heap_parent(j)));
            assert(pr(t, j) == pr(s, m));
        } else {
            assert(pr(t, i) == pr(s, i) && pr(t, heap_parent(i)) == pr(s, heap_parent(i)));
            assert(pr(s, heap_parent(i)) <= pr(s, i));
        }
    }
    assert forall|c: int| 1 <= c < t.len() && heap_parent(c) == m implies pr(t, heap_parent(m)) <= (
    #[trigger] pr(t, c)) by {
        assert(heap_parent(c) != j || c == m);
        assert(pr(t, heap_parent(m)) == pr(t, j));
        assert(pr(t, j) == pr(s, m));
        if c == j {
            assert(heap_parent(j) == m);
            assert(heap_parent(m) < m && heap_parent(j) < j);
            assert(false);
        } else {
            assert(pr(t, c) == pr(s, c));
            assert(pr(s, heap_parent(c)) <= pr(s, c));
            assert(heap_parent(c) == m);
            assert(pr(s, m) <= pr(s, c));
        }
    }
}

/// When no child of `j` is smaller, the whole heap shape holds.
proof fn lemma_sink_done<T>(s: Seq<PriorityWrapper<T>>, j: int)
    requires
        0 <= j < s.len(),
        heap_except_down(s, j),
        forall|c: int| 1 <= c < s.len() && heap_parent(c) == j ==> pr(s, j) <= #[trigger] pr(s, c),
    ensures
        is_heap(s),
{
    assert forall|i: int| 1 <= i < s.len() implies pr(s, heap_parent(i)) <= #[trigger] pr(
        s,
        i,
    ) by {
        if heap_parent(i) == j {
            assert(pr(s, j) <= pr(s, i));
        }
    }
}

/// A position without a left child has no children at all.
proof fn lemma_sink_leaf<T>(s: Seq<PriorityWrapper<T>>, j: int)
    requires
        0 <= j < s.len(),
        heap_except_down(s, j),
        2 * j + 1 >= s.len(),
    ensures
        is_heap(s),
{
    assert forall|i: int| 1 <= i < s.len() implies pr(s, heap_parent(i)) <= #[trigger] pr(
        s,
        i,
    ) by {
        if heap_parent(i) == j {
            assert(i == 2 * j + 1 || i == 2 * j + 2);
        }
    }
}

/// Sinking past the end changes nothing and the shape already holds.
proof fn lemma_sink_out<T>(s: Seq<PriorityWrapper<T>>, j: int)
    requires
        heap_except_down(s, j),
        j >= s.len(),
    ensures
        is_heap(s),
{
    assert forall|i: int| 1 <= i < s.len() implies pr(s, heap_parent(i)) <= #[trigger] pr(
        s,
        i,
    ) by {
        assert(heap_parent(i) < i);
    }
}

} // verus!
