//! What holds of the heap's operations, stated over the model.
//!
//! Where the comparison runs as specified, the executable heap computes
//! `after_push`, `after_pop`, `after_push_pop` and `heapified`; each
//! statement here then holds of the executable operations as well.

use crate::lemmas::{
    is_heap_from, lemma_root_removed, lemma_root_replaced, lemma_sift_down_below_permutes,
    lemma_sift_down_below_restores, lemma_sift_down_permutes, lemma_sift_down_restores,
    lemma_sift_up_permutes, lemma_sift_up_restores,
};
use crate::model::{
    after_pop, after_push, after_push_pop, displaces_root, heapified, is_heap, parent, parent_le,
    push_pop_result,
};
use crate::order::{le, total_preorder};
use vstd::prelude::*;
use vstd::seq_lib::{to_multiset_build, to_multiset_insert};

verus! {

/// In a heap the root is not greater than the element at position `i`.
pub proof fn lemma_root_le<T: Ord>(s: Seq<T>, i: int)
    requires
        total_preorder::<T>(),
        is_heap(s),
        0 <= i < s.len(),
    ensures
        le(s[0], s[i]),
    decreases i,
{
    if i > 0 {
        lemma_root_le(s, parent(i));
        assert(parent_le(s, i));
    }
}

/// The root of a heap is a least element: it is not greater than any
/// element of the heap.
pub proof fn lemma_root_is_least<T: Ord>(s: Seq<T>)
    requires
        total_preorder::<T>(),
        is_heap(s),
    ensures
        forall|i: int| 0 <= i < s.len() ==> le(s[0], #[trigger] s[i]),
{
    assert forall|i: int| 0 <= i < s.len() implies le(s[0], #[trigger] s[i]) by {
        lemma_root_le(s, i);
    }
}

/// Pushing adds one element, `item`, and keeps a heap a heap.
pub proof fn lemma_push<T: Ord>(s: Seq<T>, item: T)
    ensures
        after_push(s, item).len() == s.len() + 1,
        after_push(s, item).to_multiset() == s.to_multiset().insert(item),
        total_preorder::<T>() && is_heap(s) ==> is_heap(after_push(s, item)),
{
    let t = s.push(item);
    let last = s.len() as int;
    lemma_sift_up_permutes(t, last);
    to_multiset_build(s, item);
    if total_preorder::<T>() && is_heap(s) {
        assert forall|i: int| 1 <= i < t.len() && i != last implies #[trigger] parent_le(t, i) by {
            assert(parent_le(s, i));
        }
        lemma_sift_up_restores(t, last);
    }
}

/// Popping takes one element, the root, out of a non-empty sequence, and
/// keeps a heap a heap.
pub proof fn lemma_pop<T: Ord>(s: Seq<T>)
    requires
        s.len() > 0,
    ensures
        after_pop(s).len() == s.len() - 1,
        after_pop(s).to_multiset() == s.to_multiset().remove(s[0]),
        total_preorder::<T>() && is_heap(s) ==> is_heap(after_pop(s)),
{
    let t = s.update(0, s.last()).drop_last();
    lemma_root_removed(s);
    lemma_sift_down_permutes(t, 0);
    if total_preorder::<T>() && is_heap(s) {
        assert forall|i: int| 1 <= i < t.len() && parent(i) != 0 implies
            #[trigger] parent_le(t, i) by {
            assert(parent_le(s, i));
        }
        lemma_sift_down_restores(t, 0, 0);
    }
}

/// `push_pop` keeps the length, and the elements it leaves together with
/// the one it returns are the old elements together with `item`. Where it
/// takes the root out, `item` stands in the old root's place among the
/// elements; otherwise nothing changes. It keeps a heap a heap, and what it
/// returns is then a least element of the old heap and `item` together.
pub proof fn lemma_push_pop<T: Ord>(s: Seq<T>, item: T)
    ensures
        after_push_pop(s, item).len() == s.len(),
        after_push_pop(s, item).to_multiset().insert(push_pop_result(s, item))
            == s.to_multiset().insert(item),
        displaces_root(s, item) ==> after_push_pop(s, item).to_multiset()
            == s.to_multiset().insert(item).remove(s[0]),
        !displaces_root(s, item) ==> after_push_pop(s, item) == s,
        total_preorder::<T>() && is_heap(s) ==> is_heap(after_push_pop(s, item)),
        total_preorder::<T>() && is_heap(s) ==> le(push_pop_result(s, item), item),
        total_preorder::<T>() && is_heap(s) ==> forall|i: int|
            0 <= i < s.len() ==> le(push_pop_result(s, item), #[trigger] s[i]),
{
    if displaces_root(s, item) {
        lemma_root_replaced(s, item);
        lemma_sift_down_permutes(s.update(0, item), 0);
    }
    if total_preorder::<T>() && is_heap(s) {
        lemma_root_is_least(s);
        if displaces_root(s, item) {
            let t = s.update(0, item);
            assert forall|i: int| 1 <= i < t.len() && parent(i) != 0 implies
                #[trigger] parent_le(t, i) by {
                assert(parent_le(s, i));
            }
            lemma_sift_down_restores(t, 0, 0);
        }
    }
}

/// Building a heap keeps the length and the elements, and gives a heap
/// whatever the order of the sequence.
pub proof fn lemma_heapified<T: Ord>(s: Seq<T>)
    ensures
        heapified(s).len() == s.len(),
        heapified(s).to_multiset() == s.to_multiset(),
        total_preorder::<T>() ==> is_heap(heapified(s)),
{
    let n = (s.len() / 2) as int;
    lemma_sift_down_below_permutes(s, n);
    if total_preorder::<T>() {
        lemma_sift_down_below_restores(s, n);
    }
}

/// The root of the heap built from a non-empty sequence is a least element
/// of that sequence, in whatever order the sequence was given.
pub proof fn lemma_heapified_root_is_least<T: Ord>(s: Seq<T>)
    requires
        total_preorder::<T>(),
        s.len() > 0,
    ensures
        s.contains(heapified(s)[0]),
        forall|i: int| 0 <= i < s.len() ==> le(heapified(s)[0], #[trigger] s[i]),
{
    let h = heapified(s);
    lemma_heapified(s);
    lemma_root_is_least(h);
    s.to_multiset_ensures();
    h.to_multiset_ensures();
    assert(s.to_multiset().count(h[0]) > 0);
    assert forall|i: int| 0 <= i < s.len() implies le(h[0], #[trigger] s[i]) by {
        assert(h.to_multiset().count(s[i]) > 0);
    }
}

/// The greater of `a` and `b`; `b` if neither is.
pub open spec fn greater_of<T: Ord>(a: T, b: T) -> T {
    if le(a, b) {
        b
    } else {
        a
    }
}

/// Where `push_pop` hands `item` back, or `item` is not greater than any
/// element below the root, the new root is equivalent to the greater of the
/// old root and `item`: neither is greater than the other.
pub proof fn lemma_push_pop_root<T: Ord>(s: Seq<T>, item: T)
    requires
        total_preorder::<T>(),
        is_heap(s),
        s.len() > 0,
        displaces_root(s, item) ==> forall|i: int| 1 <= i < s.len() ==> le(item, #[trigger] s[i]),
    ensures
        le(after_push_pop(s, item)[0], greater_of(s[0], item)),
        le(greater_of(s[0], item), after_push_pop(s, item)[0]),
{
    if displaces_root(s, item) {
        let t = s.update(0, item);
        let h = after_push_pop(s, item);
        lemma_push_pop(s, item);
        lemma_sift_down_permutes(t, 0);
        lemma_root_is_least(h);
        t.to_multiset_ensures();
        h.to_multiset_ensures();
        // `item` is in the new heap, so the new root is not greater than it.
        assert(h.to_multiset().count(item) > 0);
        // The new root is `item` or came from below the old root.
        assert(t.to_multiset().count(h[0]) > 0);
    }
}

/// Where `push_pop` takes the root out and `item` is greater than the
/// element at some position `i` below the root, the new root is less than
/// `item`: an element from below has moved up.
pub proof fn lemma_push_pop_root_from_below<T: Ord>(s: Seq<T>, item: T, i: int)
    requires
        total_preorder::<T>(),
        is_heap(s),
        displaces_root(s, item),
        1 <= i < s.len(),
        !le(item, s[i]),
    ensures
        !le(item, after_push_pop(s, item)[0]),
{
    let t = s.update(0, item);
    let h = after_push_pop(s, item);
    lemma_push_pop(s, item);
    lemma_sift_down_permutes(t, 0);
    lemma_root_is_least(h);
    t.to_multiset_ensures();
    h.to_multiset_ensures();
    // The element at `i` is in the new heap, so the new root is not
    // greater than it.
    assert(t.contains(t[i]));
    assert(h.to_multiset().count(s[i]) > 0);
}

/// The elements of a heap in the order in which `pop` after `pop` hands
/// them out, until the heap is empty.
pub open spec fn drained<T: Ord>(s: Seq<T>) -> Seq<T>
    decreases s.len(),
{
    if s.len() == 0 {
        Seq::empty()
    } else {
        proof {
            lemma_sift_down_permutes(s.update(0, s.last()).drop_last(), 0);
        }
        seq![s[0]] + drained(after_pop(s))
    }
}

/// No element of `s` is greater than one that comes after it.
pub open spec fn is_ascending<T: Ord>(s: Seq<T>) -> bool {
    forall|i: int, j: int| 0 <= i <= j < s.len() ==> le(#[trigger] s[i], #[trigger] s[j])
}

/// Popping a heap until it is empty hands out its elements in ascending
/// order, each of them once.
pub proof fn lemma_drained_ascending<T: Ord>(s: Seq<T>)
    requires
        total_preorder::<T>(),
        is_heap(s),
    ensures
        is_ascending(drained(s)),
        drained(s).len() == s.len(),
        drained(s).to_multiset() == s.to_multiset(),
    decreases s.len(),
{
    if s.len() == 0 {
        assert(drained(s) =~= s);
    } else {
        broadcast use vstd::multiset::group_multiset_axioms;

        let rest = after_pop(s);
        let out = drained(rest);
        lemma_pop(s);
        lemma_drained_ascending(rest);
        lemma_root_is_least(s);
        s.to_multiset_ensures();
        out.to_multiset_ensures();
        // What comes out later was in the heap, below or beside the root.
        assert forall|j: int| 0 <= j < out.len() implies le(s[0], #[trigger] out[j]) by {
            assert(s.to_multiset().remove(s[0]).count(out[j]) > 0);
        }
        let all = drained(s);
        assert(all.to_multiset() =~= s.to_multiset()) by {
            assert(all =~= out.insert(0, s[0]));
            to_multiset_insert(out, 0, s[0]);
        }
    }
}

/// One step in the life of a heap.
pub enum Op<T> {
    /// The heap is built anew, from the sequence.
    Build(Seq<T>),
    /// `push` of the element.
    Push(T),
    /// `pop`.
    Pop,
    /// `push_pop` of the element.
    PushPop(T),
}

/// The heap after one step; `pop` leaves an empty heap empty.
pub open spec fn after_op<T: Ord>(s: Seq<T>, op: Op<T>) -> Seq<T> {
    match op {
        Op::Build(items) => heapified(items),
        Op::Push(item) => after_push(s, item),
        Op::Pop => if s.len() > 0 {
            after_pop(s)
        } else {
            s
        },
        Op::PushPop(item) => after_push_pop(s, item),
    }
}

/// The heap after the steps `ops`, taken in order.
pub open spec fn after_ops<T: Ord>(s: Seq<T>, ops: Seq<Op<T>>) -> Seq<T>
    decreases ops.len(),
{
    if ops.len() == 0 {
        s
    } else {
        after_op(after_ops(s, ops.drop_last()), ops.last())
    }
}

/// One step from a heap gives a heap.
pub proof fn lemma_op_keeps_heap<T: Ord>(s: Seq<T>, op: Op<T>)
    requires
        total_preorder::<T>(),
        is_heap(s),
    ensures
        is_heap(after_op(s, op)),
{
    match op {
        Op::Build(items) => lemma_heapified(items),
        Op::Push(item) => lemma_push(s, item),
        Op::Pop => if s.len() > 0 {
            lemma_pop(s)
        },
        Op::PushPop(item) => lemma_push_pop(s, item),
    }
}

/// The heap property is invariant: from a heap, and so from the empty
/// sequence, any steps in any order give a heap.
pub proof fn lemma_ops_keep_heap<T: Ord>(s: Seq<T>, ops: Seq<Op<T>>)
    requires
        total_preorder::<T>(),
        is_heap(s),
    ensures
        is_heap(after_ops(s, ops)),
    decreases ops.len(),
{
    if ops.len() > 0 {
        lemma_ops_keep_heap(s, ops.drop_last());
        lemma_op_keeps_heap(after_ops(s, ops.drop_last()), ops.last());
    }
}

/// How one step moves the length: building from `n` elements makes it
/// `n`, `push` adds one, `pop` takes one off unless there is none,
/// `push_pop` leaves it.
pub proof fn lemma_op_len<T: Ord>(s: Seq<T>, op: Op<T>)
    ensures
        op matches Op::Build(items) ==> after_op(s, op).len() == items.len(),
        op is Push ==> after_op(s, op).len() == s.len() + 1,
        op is Pop && s.len() > 0 ==> after_op(s, op).len() == s.len() - 1,
        op is Pop && s.len() == 0 ==> after_op(s, op).len() == 0,
        op is PushPop ==> after_op(s, op).len() == s.len(),
{
    match op {
        Op::Build(items) => lemma_heapified(items),
        Op::Push(item) => lemma_push(s, item),
        Op::Pop => if s.len() > 0 {
            lemma_pop(s)
        },
        Op::PushPop(item) => lemma_push_pop(s, item),
    }
}

/// After `k` pushes there are `k` elements more: from empty, `k` elements.
pub proof fn lemma_pushes_len<T: Ord>(s: Seq<T>, ops: Seq<Op<T>>)
    requires
        forall|i: int| 0 <= i < ops.len() ==> #[trigger] ops[i] is Push,
    ensures
        after_ops(s, ops).len() == s.len() + ops.len(),
    decreases ops.len(),
{
    if ops.len() > 0 {
        let before = ops.drop_last();
        assert forall|i: int| 0 <= i < before.len() implies #[trigger] before[i] is Push by {
            assert(ops[i] is Push);
        }
        lemma_pushes_len(s, before);
        lemma_op_len(after_ops(s, before), ops.last());
    }
}

} // verus!
