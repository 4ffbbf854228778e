//! The executable heap.
//!
//! No operation asks anything of its caller. What an operation promises
//! comes in three steps:
//!
//! - of any element type, that no element is lost or made up;
//! - where the comparison runs as specified, the exact backing sequence
//!   that [`crate::model`] gives;
//! - where the order is a total preorder besides, the heap property, and
//!   that what leaves the heap is a least element.

use crate::laws::{
    lemma_heapified, lemma_heapified_root_is_least, lemma_pop, lemma_push, lemma_push_pop,
    lemma_root_is_least,
};
use crate::lemmas::{lemma_root_removed, lemma_root_replaced, lemma_swapped_permutes};
use crate::model::{
    after_pop, after_push, after_push_pop, heapified, is_heap, parent_le, push_pop_result,
    sift_down, sift_down_below, sift_up, swapped,
};
use crate::order::{compares_as_specified, is_gt, is_le, le, total_preorder};
use vstd::prelude::*;
use vstd::seq_lib::to_multiset_build;

verus! {

/// A binary min-heap: its least element is at the root, and `pop` takes
/// the elements out in ascending order.
///
/// The elements are kept in one vector that is read as a complete binary
/// tree. Where the order of `T` is a total preorder, every heap is in heap
/// order: the type's invariant says so, and [`BinaryHeap::as_slice`] and
/// [`BinaryHeap::is_valid`] hand it on.
#[derive(Debug)]
pub struct BinaryHeap<T: Ord> {
    inner: Vec<T>,
}

impl<T: Ord> View for BinaryHeap<T> {
    type V = Seq<T>;

    /// The backing sequence: the elements by their positions in the tree.
    closed spec fn view(&self) -> Seq<T> {
        self.inner@
    }
}

/// Exchanges the elements at the positions `lo` and `hi`.
fn swap_at<T>(items: &mut Vec<T>, lo: usize, hi: usize)
    requires
        lo < hi < old(items).len(),
    ensures
        final(items)@ == swapped(old(items)@, hi as int, lo as int),
        final(items)@.len() == old(items)@.len(),
        final(items)@.to_multiset() == old(items)@.to_multiset(),
{
    let (head, tail) = items.split_at_mut(hi);
    core::mem::swap(&mut head[lo], &mut tail[0]);
    proof {
        assert(items@ =~= swapped(old(items)@, hi as int, lo as int));
        lemma_swapped_permutes(old(items)@, hi as int, lo as int);
    }
}

impl<T: Ord> BinaryHeap<T> {
    /// Under a total preorder the backing sequence is in heap order.
    #[verifier::type_invariant]
    spec fn heap_ordered(self) -> bool {
        total_preorder::<T>() ==> is_heap(self.inner@)
    }

    /// `copy` holds `clones`, which are clones of the elements of this
    /// heap, position by position: in their order if that is heap order,
    /// else put in heap order.
    pub open spec fn cloned_as(&self, clones: Seq<T>, copy: Self) -> bool where T: Clone {
        &&& clones.len() == self@.len()
        &&& forall|i: int| 0 <= i < clones.len() ==> cloned(self@[i], #[trigger] clones[i])
        &&& copy@.to_multiset() == clones.to_multiset()
        &&& compares_as_specified::<T>() ==> copy@ == if is_heap(clones) {
            clones
        } else {
            heapified(clones)
        }
    }

    /// An empty heap.
    pub fn new() -> (heap: Self)
        ensures
            heap@ == Seq::<T>::empty(),
    {
        Self { inner: Vec::new() }
    }

    /// The heap that holds the elements of `items`, built bottom-up in
    /// linear time.
    pub fn from(items: Vec<T>) -> (heap: Self)
        ensures
            heap@.len() == items@.len(),
            heap@.to_multiset() == items@.to_multiset(),
            compares_as_specified::<T>() ==> heap@ == heapified(items@),
            total_preorder::<T>() ==> is_heap(heap@),
            total_preorder::<T>() ==> forall|i: int|
                0 <= i < items@.len() ==> le(heap@[0], #[trigger] items@[i]),
    {
        let mut inner = items;
        Self::make_valid(&mut inner);
        proof {
            lemma_heapified(items@);
            if total_preorder::<T>() && items@.len() > 0 {
                lemma_heapified_root_is_least(items@);
            }
        }
        Self { inner }
    }

    /// Takes `items` as a heap if they are in heap order already, and hands
    /// them back unchanged if they are not.
    pub fn from_heap_order(items: Vec<T>) -> (res: Result<Self, Vec<T>>)
        ensures
            res matches Ok(heap) ==> heap@ == items@,
            res matches Err(back) ==> back@ == items@,
            compares_as_specified::<T>() ==> (res is Ok <==> is_heap(items@)),
    {
        if Self::in_heap_order(&items) {
            Ok(Self { inner: items })
        } else {
            Err(items)
        }
    }

    /// The number of elements.
    pub fn len(&self) -> (n: usize)
        ensures
            n == self@.len(),
    {
        self.inner.len()
    }

    /// The elements by their positions in the tree, the root first: in
    /// heap order.
    pub fn as_slice(&self) -> (items: &[T])
        ensures
            items@ == self@,
            total_preorder::<T>() ==> is_heap(self@),
    {
        proof {
            use_type_invariant(self);
        }
        self.inner.as_slice()
    }

    /// Adds `item` to the heap.
    pub fn push(&mut self, item: T)
        ensures
            final(self)@.len() == old(self)@.len() + 1,
            final(self)@.to_multiset() == old(self)@.to_multiset().insert(item),
            compares_as_specified::<T>() ==> final(self)@ == after_push(old(self)@, item),
            total_preorder::<T>() ==> is_heap(final(self)@),
    {
        proof {
            use_type_invariant(&*self);
            lemma_push(self.inner@, item);
            to_multiset_build(self.inner@, item);
        }
        // The vector leaves the heap for as long as it is out of heap order.
        let mut inner = Vec::new();
        core::mem::swap(&mut inner, &mut self.inner);
        inner.push(item);
        let last = inner.len() - 1;
        Self::perc_up(&mut inner, last);
        self.inner = inner;
    }

    /// Takes the root, a least element, out of the heap; `None` if the heap
    /// is empty.
    pub fn pop(&mut self) -> (popped: Option<T>)
        ensures
            old(self)@.len() == 0 ==> popped.is_none() && final(self)@ == old(self)@,
            old(self)@.len() > 0 ==> popped == Some(old(self)@[0]),
            old(self)@.len() > 0 ==> final(self)@.len() == old(self)@.len() - 1,
            old(self)@.len() > 0 ==> final(self)@.to_multiset() == old(self)@.to_multiset().remove(
                old(self)@[0],
            ),
            compares_as_specified::<T>() && old(self)@.len() > 0 ==> final(self)@ == after_pop(
                old(self)@,
            ),
            total_preorder::<T>() ==> is_heap(final(self)@),
            total_preorder::<T>() ==> forall|i: int|
                0 <= i < old(self)@.len() ==> le(old(self)@[0], #[trigger] old(self)@[i]),
    {
        proof {
            use_type_invariant(&*self);
            if total_preorder::<T>() {
                lemma_root_is_least(self.inner@);
            }
        }
        if self.inner.is_empty() {
            return None;
        }
        proof {
            lemma_pop(self.inner@);
            lemma_root_removed(self.inner@);
        }
        let mut inner = Vec::new();
        core::mem::swap(&mut inner, &mut self.inner);
        let res = inner.swap_remove(0);
        Self::perc_down(&mut inner, 0);
        self.inner = inner;
        Some(res)
    }

    /// Pushes `item` and pops the root, in one walk. The result is a least
    /// element of the heap and `item` together: the root if there is one
    /// and it is not greater than `item`, else `item` itself, and then the
    /// heap stays as it is.
    pub fn push_pop(&mut self, item: T) -> (out: T)
        ensures
            final(self)@.len() == old(self)@.len(),
            final(self)@.to_multiset().insert(out) == old(self)@.to_multiset().insert(item),
            compares_as_specified::<T>() ==> out == push_pop_result(old(self)@, item),
            compares_as_specified::<T>() ==> final(self)@ == after_push_pop(old(self)@, item),
            total_preorder::<T>() ==> is_heap(final(self)@),
            total_preorder::<T>() ==> le(out, item),
            total_preorder::<T>() ==> forall|i: int|
                0 <= i < old(self)@.len() ==> le(out, #[trigger] old(self)@[i]),
    {
        proof {
            use_type_invariant(&*self);
            lemma_push_pop(self.inner@, item);
        }
        if self.inner.len() == 0 || !is_le(&self.inner[0], &item) {
            return item;
        }
        proof {
            lemma_root_replaced(self.inner@, item);
        }
        let mut inner = Vec::new();
        core::mem::swap(&mut inner, &mut self.inner);
        let mut item = item;
        core::mem::swap(&mut inner[0], &mut item);
        Self::perc_down(&mut inner, 0);
        self.inner = inner;
        item
    }

    /// Whether the heap property holds of the backing sequence. Under a
    /// total preorder it always does.
    pub fn is_valid(&self) -> (valid: bool)
        ensures
            compares_as_specified::<T>() ==> valid == is_heap(self@),
            total_preorder::<T>() ==> is_heap(self@),
    {
        proof {
            use_type_invariant(self);
        }
        Self::in_heap_order(&self.inner)
    }

    /// Whether no element of `items` is less than its parent.
    fn in_heap_order(items: &Vec<T>) -> (valid: bool)
        ensures
            compares_as_specified::<T>() ==> valid == is_heap(items@),
    {
        let mut n: usize = 1;
        while n < items.len()
            invariant
                1 <= n,
                compares_as_specified::<T>() ==> forall|i: int|
                    1 <= i < n && i < items.len() ==> #[trigger] parent_le(items@, i),
            decreases items.len() - n,
        {
            if !is_le(&items[(n - 1) / 2], &items[n]) {
                assert(compares_as_specified::<T>() ==> !parent_le(items@, n as int));
                return false;
            }
            n += 1;
        }
        true
    }

    /// Moves the element at `pos` towards the root for as long as it is not
    /// greater than its parent.
    fn perc_up(items: &mut Vec<T>, pos: usize)
        requires
            pos < old(items).len(),
        ensures
            final(items)@.len() == old(items)@.len(),
            final(items)@.to_multiset() == old(items)@.to_multiset(),
            compares_as_specified::<T>() ==> final(items)@ == sift_up(old(items)@, pos as int),
    {
        let mut at = pos;
        while at > 0
            invariant
                at < items.len(),
                items@.len() == old(items)@.len(),
                items@.to_multiset() == old(items)@.to_multiset(),
                compares_as_specified::<T>() ==> sift_up(items@, at as int) == sift_up(
                    old(items)@,
                    pos as int,
                ),
            decreases at,
        {
            let up = (at - 1) / 2;
            if !is_le(&items[at], &items[up]) {
                return ;
            }
            swap_at(items, up, at);
            at = up;
        }
    }

    /// Moves the element at `pos` towards the leaves for as long as its
    /// least child is not greater than it; of two equal children the left
    /// one counts as the least.
    fn perc_down(items: &mut Vec<T>, pos: usize)
        ensures
            final(items)@.len() == old(items)@.len(),
            final(items)@.to_multiset() == old(items)@.to_multiset(),
            compares_as_specified::<T>() ==> final(items)@ == sift_down(old(items)@, pos as int),
    {
        let len = items.len();
        let mut at = pos;
        while at < len / 2
            invariant
                len == items.len(),
                items@.len() == old(items)@.len(),
                items@.to_multiset() == old(items)@.to_multiset(),
                compares_as_specified::<T>() ==> sift_down(items@, at as int) == sift_down(
                    old(items)@,
                    pos as int,
                ),
            decreases len - at,
        {
            let left = 2 * at + 1;
            let right = left + 1;
            let has_right = right != len;
            let to_swap = if has_right && is_gt(&items[left], &items[right]) {
                right
            } else {
                left
            };
            if !is_le(&items[to_swap], &items[at]) {
                return ;
            }
            swap_at(items, at, to_swap);
            at = to_swap;
        }
    }

    /// Puts the elements in heap order, whatever order they are in.
    fn make_valid(items: &mut Vec<T>)
        ensures
            final(items)@.len() == old(items)@.len(),
            final(items)@.to_multiset() == old(items)@.to_multiset(),
            compares_as_specified::<T>() ==> final(items)@ == heapified(old(items)@),
    {
        let mut n = items.len() / 2;
        while n > 0
            invariant
                items@.len() == old(items)@.len(),
                items@.to_multiset() == old(items)@.to_multiset(),
                compares_as_specified::<T>() ==> sift_down_below(items@, n as int) == heapified(
                    old(items)@,
                ),
            decreases n,
        {
            n -= 1;
            Self::perc_down(items, n);
        }
    }
}

impl<T: Ord + Clone> Clone for BinaryHeap<T> {
    /// A heap of clones of the elements. Clones that are in heap order as
    /// the elements are keep their positions; clones that are ordered
    /// otherwise are put in heap order.
    fn clone(&self) -> (copy: Self)
        ensures
            exists|clones: Seq<T>| #[trigger] self.cloned_as(clones, copy),
    {
        let inner = self.inner.clone();
        let ghost clones = inner@;
        let copy = if Self::in_heap_order(&inner) {
            Self { inner }
        } else {
            Self::from(inner)
        };
        assert(self.cloned_as(clones, copy));
        copy
    }
}

impl<T: Ord> Default for BinaryHeap<T> {
    /// An empty heap.
    fn default() -> (heap: Self)
        ensures
            heap@ == Seq::<T>::empty(),
    {
        Self::new()
    }
}

} // verus!
