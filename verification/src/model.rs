//! The heap as a mathematical object: a sequence read as a complete binary
//! tree, and the walks that move one element towards the root or the leaves.
//!
//! Position `0` is the root; the children of position `i` are `2 * i + 1` and
//! `2 * i + 2`. Everything here is ghost code: the executable heap is proved
//! to compute exactly these functions wherever the comparison of the
//! elements runs as specified.

use crate::order::le;
use vstd::prelude::*;

verus! {

/// The position of the parent of position `i`, for `i >= 1`.
pub open spec fn parent(i: int) -> int {
    (i - 1) / 2
}

/// `s` with the elements at positions `i` and `j` exchanged.
pub open spec fn swapped<T>(s: Seq<T>, i: int, j: int) -> Seq<T> {
    s.update(i, s[j]).update(j, s[i])
}

/// The element at position `i` is not less than the element at its parent.
pub open spec fn parent_le<T: Ord>(s: Seq<T>, i: int) -> bool {
    le(s[parent(i)], s[i])
}

/// The heap property: no element is less than its parent.
pub open spec fn is_heap<T: Ord>(s: Seq<T>) -> bool {
    forall|i: int| 1 <= i < s.len() ==> #[trigger] parent_le(s, i)
}

/// Moves the element at `pos` towards the root: as long as it is not greater
/// than its parent, the two change places.
pub open spec fn sift_up<T: Ord>(s: Seq<T>, pos: int) -> Seq<T>
    decreases pos,
{
    if 0 < pos < s.len() && le(s[pos], s[parent(pos)]) {
        sift_up(swapped(s, pos, parent(pos)), parent(pos))
    } else {
        s
    }
}

/// The child of `pos` that a downward walk exchanges with: the right child
/// where it exists and the left child is greater than it, else the left
/// child. The result is a position of `s` only if `pos` has a child.
pub open spec fn least_child<T: Ord>(s: Seq<T>, pos: int) -> int {
    if 2 * pos + 2 < s.len() && !le(s[2 * pos + 1], s[2 * pos + 2]) {
        2 * pos + 2
    } else {
        2 * pos + 1
    }
}

/// Moves the element at `pos` towards the leaves: as long as its least child
/// is not greater than it, the two change places.
pub open spec fn sift_down<T: Ord>(s: Seq<T>, pos: int) -> Seq<T>
    decreases s.len() - pos,
{
    let child = least_child(s, pos);
    if 0 <= pos && child < s.len() && le(s[child], s[pos]) {
        sift_down(swapped(s, child, pos), child)
    } else {
        s
    }
}

/// Sifts down the positions `n - 1`, `n - 2`, ..., `0`, in that order.
pub open spec fn sift_down_below<T: Ord>(s: Seq<T>, n: int) -> Seq<T>
    decreases n,
{
    if n <= 0 {
        s
    } else {
        sift_down_below(sift_down(s, n - 1), n - 1)
    }
}

/// The heap built from an arbitrary sequence: every position that has a
/// child is sifted down, the last such position first.
pub open spec fn heapified<T: Ord>(s: Seq<T>) -> Seq<T> {
    sift_down_below(s, (s.len() / 2) as int)
}

/// The heap after `item` was pushed: it is appended and sifted up.
pub open spec fn after_push<T: Ord>(s: Seq<T>, item: T) -> Seq<T> {
    sift_up(s.push(item), s.len() as int)
}

/// The non-empty heap after its root was popped: the last element takes
/// the root's place and is sifted down.
pub open spec fn after_pop<T: Ord>(s: Seq<T>) -> Seq<T> {
    sift_down(s.update(0, s.last()).drop_last(), 0)
}

/// Whether `push_pop` of `item` takes the root out: there is a root, and it
/// is not greater than `item`.
pub open spec fn displaces_root<T: Ord>(s: Seq<T>, item: T) -> bool {
    s.len() > 0 && le(s[0], item)
}

/// What `push_pop` of `item` returns: the root where it is taken out, else
/// `item` itself.
pub open spec fn push_pop_result<T: Ord>(s: Seq<T>, item: T) -> T {
    if displaces_root(s, item) {
        s[0]
    } else {
        item
    }
}

/// The heap after `push_pop` of `item`: where the root is taken out, `item`
/// takes its place and is sifted down; otherwise nothing changes.
pub open spec fn after_push_pop<T: Ord>(s: Seq<T>, item: T) -> Seq<T> {
    if displaces_root(s, item) {
        sift_down(s.update(0, item), 0)
    } else {
        s
    }
}

} // verus!
