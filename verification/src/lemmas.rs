//! Why the walks of the model restore the heap property and keep the
//! elements.

use crate::model::{
    is_heap, least_child, parent, parent_le, sift_down, sift_down_below, sift_up, swapped,
};
use crate::order::{le, total_preorder};
use vstd::prelude::*;
use vstd::seq_lib::{to_multiset_remove, to_multiset_update};

verus! {

/// The element at position `i` is not less than the element two levels
/// above it.
pub open spec fn grandparent_le<T: Ord>(s: Seq<T>, i: int) -> bool {
    le(s[parent(parent(i))], s[i])
}

/// The heap property holds wherever the parent is at position `from` or
/// later: every subtree rooted at `from` or later is a heap.
pub open spec fn is_heap_from<T: Ord>(s: Seq<T>, from: int) -> bool {
    forall|i: int| 1 <= i < s.len() && parent(i) >= from ==> #[trigger] parent_le(s, i)
}

/// The state during an upward walk: only the element at `pos` may be less
/// than its parent, and the children of `pos` already respect the parent
/// of `pos`.
pub open spec fn heap_but_above<T: Ord>(s: Seq<T>, pos: int) -> bool {
    &&& forall|i: int| 1 <= i < s.len() && i != pos ==> #[trigger] parent_le(s, i)
    &&& forall|i: int|
        1 <= i < s.len() && pos >= 1 && parent(i) == pos ==> #[trigger] grandparent_le(s, i)
}

/// The state during a downward walk, for the subtrees rooted at `from` or
/// later: only the children of `pos` may be less than their parent, and
/// they already respect the parent of `pos`.
pub open spec fn heap_but_below<T: Ord>(s: Seq<T>, from: int, pos: int) -> bool {
    &&& forall|i: int|
        1 <= i < s.len() && parent(i) >= from && parent(i) != pos ==> #[trigger] parent_le(s, i)
    &&& forall|i: int|
        1 <= i < s.len() && pos >= 1 && parent(pos) >= from && parent(i) == pos
            ==> #[trigger] grandparent_le(s, i)
}

/// Exchanging two elements keeps the length and the elements.
pub proof fn lemma_swapped_permutes<T>(s: Seq<T>, i: int, j: int)
    requires
        0 <= i < s.len(),
        0 <= j < s.len(),
    ensures
        swapped(s, i, j).len() == s.len(),
        swapped(s, i, j).to_multiset() == s.to_multiset(),
{
    let t = s.update(i, s[j]);
    to_multiset_update(s, i, s[j]);
    to_multiset_update(t, j, s[i]);
    s.to_multiset_ensures();
}

/// Putting the last element in the root's place and dropping the last
/// position takes the root, and nothing else, out of a non-empty sequence.
pub proof fn lemma_root_removed<T>(s: Seq<T>)
    requires
        s.len() > 0,
    ensures
        s.update(0, s.last()).drop_last().len() == s.len() - 1,
        s.update(0, s.last()).drop_last().to_multiset() == s.to_multiset().remove(s[0]),
{
    let moved = s.update(0, s.last());
    to_multiset_update(s, 0, s.last());
    to_multiset_remove(moved, moved.len() - 1);
    s.to_multiset_ensures();
}

/// Putting `item` in the root's place exchanges the root for `item` among
/// the elements of a non-empty sequence.
pub proof fn lemma_root_replaced<T>(s: Seq<T>, item: T)
    requires
        s.len() > 0,
    ensures
        s.update(0, item).to_multiset() == s.to_multiset().insert(item).remove(s[0]),
        s.update(0, item).to_multiset().insert(s[0]) == s.to_multiset().insert(item),
{
    to_multiset_update(s, 0, item);
    s.to_multiset_ensures();
}

/// An upward walk keeps the length and the elements.
pub proof fn lemma_sift_up_permutes<T: Ord>(s: Seq<T>, pos: int)
    ensures
        sift_up(s, pos).len() == s.len(),
        sift_up(s, pos).to_multiset() == s.to_multiset(),
    decreases pos,
{
    if 0 < pos < s.len() && le(s[pos], s[parent(pos)]) {
        lemma_swapped_permutes(s, pos, parent(pos));
        lemma_sift_up_permutes(swapped(s, pos, parent(pos)), parent(pos));
    }
}

/// An upward walk from the only position that may be out of order ends in
/// a heap.
pub proof fn lemma_sift_up_restores<T: Ord>(s: Seq<T>, pos: int)
    requires
        total_preorder::<T>(),
        0 <= pos < s.len(),
        heap_but_above(s, pos),
    ensures
        is_heap(sift_up(s, pos)),
    decreases pos,
{
    if 0 < pos && le(s[pos], s[parent(pos)]) {
        let up = parent(pos);
        let t = swapped(s, pos, up);
        assert forall|i: int| 1 <= i < t.len() && i != up implies #[trigger] parent_le(t, i) by {
            if i == pos {
            } else if parent(i) == up {
                assert(parent_le(s, i));
            } else if parent(i) == pos {
                assert(grandparent_le(s, i));
            } else {
                assert(parent_le(s, i));
            }
        }
        assert forall|i: int| 1 <= i < t.len() && up >= 1 && parent(i) == up implies
            #[trigger] grandparent_le(t, i) by {
            assert(parent_le(s, up));
            if i != pos {
                assert(parent_le(s, i));
            }
        }
        lemma_sift_up_restores(t, up);
    } else {
        assert forall|i: int| 1 <= i < s.len() implies #[trigger] parent_le(s, i) by {}
    }
}

/// A downward walk keeps the length and the elements.
pub proof fn lemma_sift_down_permutes<T: Ord>(s: Seq<T>, pos: int)
    ensures
        sift_down(s, pos).len() == s.len(),
        sift_down(s, pos).to_multiset() == s.to_multiset(),
    decreases s.len() - pos,
{
    let child = least_child(s, pos);
    if 0 <= pos && child < s.len() && le(s[child], s[pos]) {
        lemma_swapped_permutes(s, child, pos);
        lemma_sift_down_permutes(swapped(s, child, pos), child);
    }
}

/// A downward walk from the only position whose children may be out of
/// order ends with every subtree rooted at `from` or later a heap.
pub proof fn lemma_sift_down_restores<T: Ord>(s: Seq<T>, from: int, pos: int)
    requires
        total_preorder::<T>(),
        0 <= from <= pos,
        heap_but_below(s, from, pos),
    ensures
        is_heap_from(sift_down(s, pos), from),
    decreases s.len() - pos,
{
    let child = least_child(s, pos);
    if child < s.len() && le(s[child], s[pos]) {
        let t = swapped(s, child, pos);
        assert forall|i: int|
            1 <= i < t.len() && parent(i) >= from && parent(i) != child implies
            #[trigger] parent_le(t, i) by {
            if parent(i) == pos {
            } else if i == pos {
                assert(grandparent_le(s, child));
            } else {
                assert(parent_le(s, i));
            }
        }
        assert forall|i: int| 1 <= i < t.len() && parent(i) == child implies
            #[trigger] grandparent_le(t, i) by {
            assert(parent_le(s, i));
        }
        lemma_sift_down_restores(t, from, child);
    } else {
        assert forall|i: int| 1 <= i < s.len() && parent(i) >= from implies
            #[trigger] parent_le(s, i) by {}
    }
}

/// Sifting down the positions below `n`, last first, keeps the length and
/// the elements.
pub proof fn lemma_sift_down_below_permutes<T: Ord>(s: Seq<T>, n: int)
    ensures
        sift_down_below(s, n).len() == s.len(),
        sift_down_below(s, n).to_multiset() == s.to_multiset(),
    decreases n,
{
    if n > 0 {
        lemma_sift_down_permutes(s, n - 1);
        lemma_sift_down_below_permutes(sift_down(s, n - 1), n - 1);
    }
}

/// Where every subtree rooted at `n` or later is a heap, sifting down the
/// positions below `n`, last first, ends in a heap.
pub proof fn lemma_sift_down_below_restores<T: Ord>(s: Seq<T>, n: int)
    requires
        total_preorder::<T>(),
        0 <= n,
        is_heap_from(s, n),
    ensures
        is_heap(sift_down_below(s, n)),
    decreases n,
{
    if n > 0 {
        lemma_sift_down_restores(s, n - 1, n - 1);
        lemma_sift_down_below_restores(sift_down(s, n - 1), n - 1);
    }
}

} // verus!
