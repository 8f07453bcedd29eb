//! Axis-aligned screen rectangles and the clipping algebra of the window
//! manager: intersection tests and splitting one rectangle against
//! another.

use vstd::prelude::*;

use crate::ds::queue::Queue;

verus! {

/// A rectangle as half-open vertical and horizontal spans: rows
/// `[top, bottom)` and columns `[left, right)`.
#[derive(Clone, Copy, Debug, PartialEq, Eq, Structural)]
pub struct Rect {
    pub top: u16,
    pub bottom: u16,
    pub left: u16,
    pub right: u16,
}

/// The larger of two coordinates.
pub open spec fn spec_max(a: int, b: int) -> int {
    if a >= b {
        a
    } else {
        b
    }
}

/// The smaller of two coordinates.
pub open spec fn spec_min(a: int, b: int) -> int {
    if a <= b {
        a
    } else {
        b
    }
}

/// Whether the point `(x, y)` lies in `r`'s area, rows `[top, bottom)`
/// and columns `[left, right)`.
pub open spec fn in_rect(r: Rect, x: int, y: int) -> bool {
    r.left <= x < r.right && r.top <= y < r.bottom
}

/// Whether the point `(x, y)` lies strictly inside `r`.
pub open spec fn strictly_inside(r: Rect, x: int, y: int) -> bool {
    r.left < x < r.right && r.top < y < r.bottom
}

/// Whether `a` and `b` share any area.
pub open spec fn overlap(a: Rect, b: Rect) -> bool {
    a.left < b.right && b.left < a.right && a.top < b.bottom && b.top < a.bottom
}

impl Rect {
    /// A rectangle from its four edges.
    pub fn new(top: u16, bottom: u16, right: u16, left: u16) -> (r: Rect)
        ensures
            r == (Rect { top, bottom, left, right }),
    {
        Rect { top, bottom, right, left }
    }

    /// Whether `self` and `rect` share any area.
    pub fn does_intersect(&self, rect: &Rect) -> (r: bool)
        ensures
            r == overlap(*self, *rect),
    {
        self.left < rect.right && self.right > rect.left && self.top < rect.bottom && self.bottom
            > rect.top
    }

    /// Whether the coordinate pair lies strictly inside `self`.
    pub fn coord_does_intersect(&self, coords: (u16, u16)) -> (r: bool)
        ensures
            r == strictly_inside(*self, coords.0 as int, coords.1 as int),
    {
        let x = coords.0;
        let y = coords.1;
        x > self.left && x < self.right && y > self.top && y < self.bottom
    }

    /// The common area of `self` and `other`: a rectangle exactly when
    /// they overlap, and then the one whose points are the points inside
    /// both.
    pub fn intersection(&self, other: &Rect) -> (r: Option<Rect>)
        ensures
            r is Some <==> (spec_max(self.left as int, other.left as int) < spec_min(
                self.right as int,
                other.right as int,
            ) && spec_max(self.top as int, other.top as int) < spec_min(
                self.bottom as int,
                other.bottom as int,
            )),
            r matches Some(q) ==> {
                &&& q.left as int == if self.left >= other.left {
                    self.left as int
                } else {
                    other.left as int
                }
                &&& q.right as int == if self.right <= other.right {
                    self.right as int
                } else {
                    other.right as int
                }
                &&& q.top as int == if self.top >= other.top {
                    self.top as int
                } else {
                    other.top as int
                }
                &&& q.bottom as int == if self.bottom <= other.bottom {
                    self.bottom as int
                } else {
                    other.bottom as int
                }
            },
    {
        let intersect_left = if self.left >= other.left {
            self.left
        } else {
            other.left
        };
        let intersect_right = if self.right <= other.right {
            self.right
        } else {
            other.right
        };
        let intersect_top = if self.top >= other.top {
            self.top
        } else {
            other.top
        };
        let intersect_bottom = if self.bottom <= other.bottom {
            self.bottom
        } else {
            other.bottom
        };
        if intersect_left < intersect_right && intersect_top < intersect_bottom {
            Some(Rect::new(intersect_top, intersect_bottom, intersect_right, intersect_left))
        } else {
            None
        }
    }

    /// Splits `rect` against `split_rect`: for each edge of `split_rect`
    /// cutting through `rect`, the part of `rect` outside that edge is
    /// queued and `rect` shrinks to the rest.  Afterwards `rect` is the
    /// part of the first rectangle covered by `split_rect`'s spans.
    #[verifier::rlimit(100)]
    #[verifier::spinoff_prover]
    pub fn split_rect(rect: &mut Rect, split_rect: &Rect, rects: &mut Queue<Rect>)
        ensures
            final(rect).left as int == if split_rect.left > old(rect).left && split_rect.left
                < old(rect).right {
                split_rect.left as int
            } else {
                old(rect).left as int
            },
            final(rect).top as int == if split_rect.top > old(rect).top && split_rect.top < old(
                rect,
            ).bottom {
                split_rect.top as int
            } else {
                old(rect).top as int
            },
            final(rect).right as int == if split_rect.right > final(rect).left && split_rect.right
                < old(rect).right {
                split_rect.right as int
            } else {
                old(rect).right as int
            },
            final(rect).bottom as int == if split_rect.bottom > final(rect).top
                && split_rect.bottom < old(rect).bottom {
                split_rect.bottom as int
            } else {
                old(rect).bottom as int
            },
            final(rects).view().len() <= old(rects).view().len() + 4,
            final(rects).view().len() >= old(rects).view().len(),
            forall|i: int|
                0 <= i < old(rects).view().len() ==> (#[trigger] final(rects).view()[i]) == old(
                    rects,
                ).view()[i],
            // Cover: the old rectangle's points are exactly the final
            // rectangle's plus the queued strips'.
            forall|x: int, y: int|
                (#[trigger] in_rect(*old(rect), x, y)) <==> (in_rect(*final(rect), x, y)
                    || exists|i: int|
                    old(rects).view().len() <= i < final(rects).view().len()
                        && #[trigger] in_rect(final(rects).view()[i], x, y)),
            // Each queued strip lies inside the old rectangle, outside the
            // splitting one and outside the final rectangle.
            forall|i: int, x: int, y: int|
                old(rects).view().len() <= i < final(rects).view().len() && #[trigger] in_rect(
                    final(rects).view()[i],
                    x,
                    y,
                ) ==> in_rect(*old(rect), x, y) && !in_rect(*split_rect, x, y) && !in_rect(
                    *final(rect),
                    x,
                    y,
                ),
            // The queued strips are pairwise disjoint.
            forall|i: int, j: int, x: int, y: int|
                old(rects).view().len() <= i < j < final(rects).view().len() ==> !((
                #[trigger] in_rect(final(rects).view()[i], x, y)) && #[trigger] in_rect(
                    final(rects).view()[j],
                    x,
                    y,
                )),
    {
        let ghost r0 = *rect;
        let ghost base = old(rects).view().len() as int;
        let ghost c1 = split_rect.left > r0.left && split_rect.left < r0.right;
        let ghost p1 = Rect { top: r0.top, bottom: r0.bottom, left: r0.left, right: split_rect.left };
        if split_rect.left > rect.left && split_rect.left < rect.right {
            rects.enqueue(Rect::new(rect.top, rect.bottom, split_rect.left, rect.left));
            rect.left = split_rect.left;
        }
        let ghost r1 = *rect;
        let ghost n1 = base + if c1 { 1int } else { 0int };
        let ghost c2 = split_rect.top > r1.top && split_rect.top < r1.bottom;
        let ghost p2 = Rect { top: r1.top, bottom: split_rect.top, left: r1.left, right: r1.right };
        if split_rect.top > rect.top && split_rect.top < rect.bottom {
            rects.enqueue(Rect::new(rect.top, split_rect.top, rect.right, rect.left));
            rect.top = split_rect.top;
        }
        let ghost r2 = *rect;
        let ghost n2 = n1 + if c2 { 1int } else { 0int };
        let ghost c3 = split_rect.right > r2.left && split_rect.right < r2.right;
        let ghost p3 = Rect { top: r2.top, bottom: r2.bottom, left: split_rect.right, right: r2.right };
        if split_rect.right > rect.left && split_rect.right < rect.right {
            rects.enqueue(Rect::new(rect.top, rect.bottom, rect.right, split_rect.right));
            rect.right = split_rect.right;
        }
        let ghost r3 = *rect;
        let ghost n3 = n2 + if c3 { 1int } else { 0int };
        let ghost c4 = split_rect.bottom > r3.top && split_rect.bottom < r3.bottom;
        let ghost p4 = Rect { top: split_rect.bottom, bottom: r3.bottom, left: r3.left, right: r3.right };
        if split_rect.bottom > rect.top && split_rect.bottom < rect.bottom {
            rects.enqueue(Rect::new(split_rect.bottom, rect.bottom, rect.right, rect.left));
            rect.bottom = split_rect.bottom;
        }
        proof {
            let r4 = *rect;
            let n4 = n3 + if c4 { 1int } else { 0int };
            let q = rects.view();
            assert(q.len() == n4);
            // Which strip sits at which queue position.
            assert(c1 ==> q[base] == p1);
            assert(c2 ==> q[n1] == p2);
            assert(c3 ==> q[n2] == p3);
            assert(c4 ==> q[n3] == p4);
            // Containment chain of the shrinking rectangle, and each
            // strip's relation to its stage.
            assert forall|x: int, y: int| true implies {
                &&& (in_rect(r0, x, y) <==> (in_rect(r1, x, y) || (c1 && in_rect(p1, x, y))))
                &&& (in_rect(r1, x, y) <==> (in_rect(r2, x, y) || (c2 && in_rect(p2, x, y))))
                &&& (in_rect(r2, x, y) <==> (in_rect(r3, x, y) || (c3 && in_rect(p3, x, y))))
                &&& (in_rect(r3, x, y) <==> (in_rect(r4, x, y) || (c4 && in_rect(p4, x, y))))
                &&& (c1 && in_rect(p1, x, y) ==> !in_rect(r1, x, y) && !in_rect(
                    *split_rect,
                    x,
                    y,
                ))
                &&& (c2 && in_rect(p2, x, y) ==> !in_rect(r2, x, y) && !in_rect(
                    *split_rect,
                    x,
                    y,
                ))
                &&& (c3 && in_rect(p3, x, y) ==> !in_rect(r3, x, y) && !in_rect(
                    *split_rect,
                    x,
                    y,
                ))
                &&& (c4 && in_rect(p4, x, y) ==> !in_rect(r4, x, y) && !in_rect(
                    *split_rect,
                    x,
                    y,
                ))
                &&& (in_rect(r4, x, y) ==> in_rect(r3, x, y) && in_rect(r2, x, y) && in_rect(
                    r1,
                    x,
                    y,
                ) && in_rect(r0, x, y))
                &&& (in_rect(r3, x, y) ==> in_rect(r2, x, y))
                &&& (in_rect(r2, x, y) ==> in_rect(r1, x, y))
                &&& (in_rect(r1, x, y) ==> in_rect(r0, x, y))
            } by {}
            // Cover, with the strip index as the witness.
            assert forall|x: int, y: int| #[trigger]
                in_rect(r0, x, y) implies (in_rect(r4, x, y) || exists|i: int|
                base <= i < q.len() && #[trigger] in_rect(q[i], x, y)) by {
                if !in_rect(r4, x, y) {
                    if c1 && in_rect(p1, x, y) {
                        assert(in_rect(q[base], x, y));
                    } else if c2 && in_rect(p2, x, y) {
                        assert(in_rect(q[n1], x, y));
                    } else if c3 && in_rect(p3, x, y) {
                        assert(in_rect(q[n2], x, y));
                    } else {
                        assert(c4 && in_rect(p4, x, y));
                        assert(in_rect(q[n3], x, y));
                    }
                }
            }
            assert forall|i: int, x: int, y: int|
                base <= i < q.len() && #[trigger] in_rect(q[i], x, y) implies in_rect(r0, x, y)
                && !in_rect(*split_rect, x, y) && !in_rect(r4, x, y) by {
                if i < n1 {
                    assert(c1 && q[i] == p1);
                } else if i < n2 {
                    assert(c2 && q[i] == p2);
                } else if i < n3 {
                    assert(c3 && q[i] == p3);
                } else {
                    assert(c4 && q[i] == p4);
                }
            }
            assert forall|i: int, j: int, x: int, y: int|
                base <= i < j < q.len() implies !((#[trigger] in_rect(q[i], x, y))
                && #[trigger] in_rect(q[j], x, y)) by {
                if in_rect(q[i], x, y) && in_rect(q[j], x, y) {
                    if i < n1 {
                        assert(c1 && q[i] == p1 && !in_rect(r1, x, y));
                    } else if i < n2 {
                        assert(c2 && q[i] == p2 && !in_rect(r2, x, y));
                    } else {
                        assert(c3 && q[i] == p3 && !in_rect(r3, x, y));
                    }
                    if j < n2 {
                        assert(c2 && q[j] == p2 && in_rect(r1, x, y));
                    } else if j < n3 {
                        assert(c3 && q[j] == p3 && in_rect(r2, x, y));
                    } else {
                        assert(c4 && q[j] == p4 && in_rect(r3, x, y));
                    }
                    assert(false);
                }
            }
        }
    }

    /// Splits every queued rectangle against `splitting_rect`: ones not
    /// touching it pass through whole, the others are replaced by their
    /// parts outside it.
    pub fn split_rect_list(splitting_rect: &mut Rect, rects: &mut Queue<Rect>)
        ensures
            final(rects).view().len() <= old(rects).view().len() * 5,
    {
        let mut splitted: Queue<Rect> = Queue::new();
        let n = rects.length();
        let mut i: usize = 0;
        while i < n
            invariant
                i <= n,
                n == rects.view().len(),
                splitted.view().len() <= i * 5,
            decreases n - i,
        {
            let working = match rects.get_element(i) {
                Some(w) => *w,
                None => {
                    proof {
                        assert(false);
                    }
                    return;
                }
            };
            let mut working_rect = working;
            if !splitting_rect.does_intersect(&working_rect) {
                splitted.enqueue(working_rect);
            } else {
                Rect::split_rect(&mut working_rect, splitting_rect, &mut splitted);
                splitted.enqueue(working_rect);
            }
            proof {
                assert(splitted.view().len() <= (i + 1) * 5) by (nonlinear_arith)
                    requires
                        splitted.view().len() <= i * 5 + 5,
                ;
            }
            i = i + 1;
        }
        rects.empty();
        let m = splitted.length();
        let mut j: usize = 0;
        while j < m
            invariant
                j <= m,
                m == splitted.view().len(),
                rects.view().len() == j as int,
            decreases m - j,
        {
            match splitted.get_element(j) {
                Some(r) => {
                    let v = *r;
                    rects.enqueue(v);
                }
                None => {
                    proof {
                        assert(false);
                    }
                }
            }
            j = j + 1;
        }
        proof {
            let glen = rects.view().len() as int;
            let gold = old(rects).view().len() as int;
            assert(glen <= gold * 5) by (nonlinear_arith)
                requires
                    glen == m as int,
                    m as int <= n as int * 5,
                    n as int == gold,
            ;
        }
    }
}

/// A point lies in the intersection of two rectangles exactly when it
/// lies in both: the clipping algebra's defining law.
pub proof fn lemma_intersection_points(a: Rect, b: Rect, q: Rect, x: int, y: int)
    requires
        overlap(a, b),
        q.left as int == if a.left >= b.left {
            a.left as int
        } else {
            b.left as int
        },
        q.right as int == if a.right <= b.right {
            a.right as int
        } else {
            b.right as int
        },
        q.top as int == if a.top >= b.top {
            a.top as int
        } else {
            b.top as int
        },
        q.bottom as int == if a.bottom <= b.bottom {
            a.bottom as int
        } else {
            b.bottom as int
        },
    ensures
        strictly_inside(q, x, y) <==> strictly_inside(a, x, y) && strictly_inside(b, x, y),
{
}

} // verus!
