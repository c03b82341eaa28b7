//! Array-backed binary min-heap over elements ordered by a numeric key.
//!
//! The backing array is the sole representation: `data[i]`'s children sit at
//! `2*i + 1` and `2*i + 2`, its parent at `(i - 1) / 2`. Every mutating
//! operation states in its contract that it preserves the min-heap property
//! and says what happens to the multiset of stored elements.

use vstd::prelude::*;

verus! {

broadcast use vstd::seq_lib::group_to_multiset_ensures;

/// An element that a `Heap` can order: it exposes a single numeric key.
pub trait HeapOrd: Sized {
    /// The ordering key of this element.
    spec fn key(&self) -> int;

    /// Strict comparison of the ordering keys.
    fn key_lt(&self, other: &Self) -> (r: bool)
        ensures
            r <==> self.key() < other.key(),
    ;
}

impl HeapOrd for i64 {
    open spec fn key(&self) -> int {
        *self as int
    }

    fn key_lt(&self, other: &Self) -> (r: bool)
        ensures
            r <==> self.key() < other.key(),
    {
        *self < *other
    }
}

/// The binary min-heap property: every element's key is at least its parent's.
pub open spec fn is_min_heap<T: HeapOrd>(s: Seq<T>) -> bool {
    forall|i: int| 1 <= i < s.len() ==> (#[trigger] s[i].key()) >= s[(i - 1) / 2].key()
}

/// The min-heap property everywhere except that the element at `cur` may be
/// smaller than its parent (the state in the middle of a sift-up).
spec fn heap_except_up<T: HeapOrd>(s: Seq<T>, cur: int) -> bool {
    forall|i: int| 1 <= i < s.len() && i != cur ==> (#[trigger] s[i].key()) >= s[(i - 1) / 2].key()
}

/// During a sift-up at `cur`, the children of `cur` are already at least
/// `cur`'s parent, so a swap across `cur` cannot break their edges.
spec fn sift_up_children_bound<T: HeapOrd>(s: Seq<T>, cur: int) -> bool {
    cur > 0 ==> forall|i: int|
        1 <= i < s.len() && (i - 1) / 2 == cur ==> (#[trigger] s[i].key()) >= s[(cur - 1) / 2].key()
}

/// The min-heap property everywhere except on the edges from `idx` down to
/// its children (the state in the middle of a sift-down).
pub open spec fn heap_except_down<T: HeapOrd>(s: Seq<T>, idx: int) -> bool {
    forall|i: int| 1 <= i < s.len() && (i - 1) / 2 != idx ==> (#[trigger] s[i].key()) >= s[(i - 1) / 2].key()
}

/// During a sift-down at `idx`, the children of `idx` are already at least
/// `idx`'s parent.
pub open spec fn sift_down_children_bound<T: HeapOrd>(s: Seq<T>, idx: int) -> bool {
    idx > 0 ==> forall|i: int|
        1 <= i < s.len() && (i - 1) / 2 == idx ==> (#[trigger] s[i].key()) >= s[(idx - 1) / 2].key()
}

/// In a min-heap the root carries the smallest key.
pub proof fn lemma_root_min<T: HeapOrd>(s: Seq<T>, i: int)
    requires
        is_min_heap(s),
        0 <= i < s.len(),
    ensures
        s[0].key() <= s[i].key(),
    decreases i,
{
    if i >= 1 {
        assert(s[i].key() >= s[(i - 1) / 2].key());
        lemma_root_min(s, (i - 1) / 2);
    }
}

/// Exchanges the elements at `i` and `j`, keeping the multiset of elements.
fn swap_in<T: Copy>(data: &mut Vec<T>, i: usize, j: usize)
    requires
        i < old(data).len(),
        j < old(data).len(),
    ensures
        final(data)@ == old(data)@.update(i as int, old(data)@[j as int]).update(
            j as int,
            old(data)@[i as int],
        ),
        final(data)@.to_multiset() == old(data)@.to_multiset(),
        final(data)@.len() == old(data)@.len(),
{
    let a = data[i];
    let b = data[j];
    data[i] = b;
    data[j] = a;
    proof {
        broadcast use vstd::multiset::group_multiset_axioms;

        assert(data@.to_multiset() =~= old(data)@.to_multiset());
    }
}

/// A dense, 0-indexed array satisfying the binary min-heap property.
pub struct Heap<T: HeapOrd + Copy> {
    pub data: Vec<T>,
}

impl<T: HeapOrd + Copy> Heap<T> {
    pub fn new() -> (r: Self)
        ensures
            r.data@.len() == 0,
            is_min_heap(r.data@),
    {
        Heap { data: Vec::new() }
    }

    /// Index of the parent of `idx` in the dense array layout.
    pub fn parent(&self, idx: usize) -> (r: usize)
        requires
            1 <= idx,
        ensures
            r as int == (idx - 1) / 2,
    {
        if idx % 2 == 0 {
            (idx - 1) / 2
        } else {
            idx / 2
        }
    }

    /// Index of the left child of `idx`.
    pub fn left(&self, idx: usize) -> (r: usize)
        requires
            idx <= (usize::MAX - 1) / 2,
        ensures
            r as int == 2 * idx + 1,
    {
        2 * idx + 1
    }

    /// Index of the right child of `idx`.
    pub fn right(&self, idx: usize) -> (r: usize)
        requires
            idx <= (usize::MAX - 2) / 2,
        ensures
            r as int == 2 * idx + 2,
    {
        2 * idx + 2
    }

    /// Appends `element`, then sifts it up along the path to the root.
    pub fn insert(&mut self, element: T)
        requires
            is_min_heap(old(self).data@),
        ensures
            is_min_heap(final(self).data@),
            final(self).data@.len() == old(self).data@.len() + 1,
            final(self).data@.to_multiset() == old(self).data@.push(element).to_multiset(),
    {
        self.data.push(element);
        let mut current: usize = self.data.len() - 1;

        while current != 0
            invariant
                current < self.data@.len(),
                self.data@.len() == old(self).data@.len() + 1,
                self.data@.to_multiset() == old(self).data@.push(element).to_multiset(),
                heap_except_up(self.data@, current as int),
                sift_up_children_bound(self.data@, current as int),
            decreases current,
        {
            let parent_idx = self.parent(current);

            if self.data[current].key_lt(&self.data[parent_idx]) {
                swap_in(&mut self.data, current, parent_idx)
            }

            current = parent_idx;
        }
    }

    /// Overwrites the slot at `idx` with a key-wise smaller-or-equal element,
    /// then sifts it up until heap order is restored.
    pub fn decrease_key(&mut self, idx: usize, element: T)
        requires
            is_min_heap(old(self).data@),
            idx < old(self).data@.len(),
            element.key() <= old(self).data@[idx as int].key(),
        ensures
            is_min_heap(final(self).data@),
            final(self).data@.len() == old(self).data@.len(),
            final(self).data@.to_multiset() == old(self).data@.update(idx as int, element).to_multiset(),
    {
        self.data[idx] = element;
        let mut current = idx;

        while current > 0 && self.data[current].key_lt(&self.data[self.parent(current)])
            invariant
                current < self.data@.len(),
                self.data@.len() == old(self).data@.len(),
                self.data@.to_multiset() == old(self).data@.update(idx as int, element).to_multiset(),
                heap_except_up(self.data@, current as int),
                sift_up_children_bound(self.data@, current as int),
            decreases current,
        {
            let parent = self.parent(current);
            swap_in(&mut self.data, current, parent);
            current = self.parent(current);
        }
    }

    /// Removes and returns the minimum element, or `None` on an empty heap.
    pub fn pop(&mut self) -> (r: Option<T>)
        requires
            is_min_heap(old(self).data@),
        ensures
            is_min_heap(final(self).data@),
            old(self).data@.len() == 0 ==> r is None && final(self).data@ == old(self).data@,
            old(self).data@.len() > 0 ==> {
                &&& r == Some(old(self).data@[0])
                &&& final(self).data@.len() == old(self).data@.len() - 1
                &&& final(self).data@.to_multiset() == old(self).data@.remove(0).to_multiset()
                &&& forall|i: int|
                    0 <= i < old(self).data@.len() ==> old(self).data@[0].key() <= (#[trigger] old(
                        self,
                    ).data@[i].key())
            },
    {
        match self.data.len() {
            n if n == 0 => None,
            n if n == 1 => {
                proof {
                    assert(old(self).data@.remove(0) =~= old(self).data@.drop_last());
                }
                self.data.pop()
            },
            _ => {
                proof {
                    assert forall|i: int| 0 <= i < old(self).data@.len() implies old(
                        self,
                    ).data@[0].key() <= (#[trigger] old(self).data@[i].key()) by {
                        lemma_root_min(old(self).data@, i);
                    }
                }
                let last_element_idx = self.data.len() - 1;
                swap_in(&mut self.data, 0, last_element_idx);
                let value = self.data.pop().unwrap();

                proof {
                    let swapped = old(self).data@.update(0, old(self).data@.last()).update(
                        old(self).data@.len() - 1,
                        old(self).data@[0],
                    );
                    assert(self.data@ =~= swapped.remove(swapped.len() - 1));
                    assert(swapped.remove(swapped.len() - 1).to_multiset() == swapped.to_multiset()
                        .remove(swapped[swapped.len() - 1]));
                    assert(old(self).data@.remove(0).to_multiset() == old(self).data@.to_multiset()
                        .remove(old(self).data@[0]));
                    assert(self.data@.to_multiset() == old(self).data@.remove(0).to_multiset());
                }
                self.heapify(0);

                Some(value)
            },
        }
    }

    /// Sift-down: restores heap order below `idx` when only the edges from
    /// `idx` to its children may be out of order.
    pub fn heapify(&mut self, idx: usize)
        requires
            idx < old(self).data@.len(),
            heap_except_down(old(self).data@, idx as int),
            sift_down_children_bound(old(self).data@, idx as int),
        ensures
            is_min_heap(final(self).data@),
            final(self).data@.len() == old(self).data@.len(),
            final(self).data@.to_multiset() == old(self).data@.to_multiset(),
        decreases old(self).data@.len() - idx,
    {
        let size = self.data.len();
        let mut min_idx = idx;

        if idx < size / 2 {
            let left_idx = 2 * idx + 1;
            if self.data[left_idx].key_lt(&self.data[min_idx]) {
                min_idx = left_idx;
            }
        }

        if size >= 1 && idx < (size - 1) / 2 {
            let right_idx = 2 * idx + 2;
            if self.data[right_idx].key_lt(&self.data[min_idx]) {
                min_idx = right_idx;
            }
        }

        if min_idx != idx {
            swap_in(&mut self.data, idx, min_idx);
            self.heapify(min_idx);
        }
    }
}

} // verus!
