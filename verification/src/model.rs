//! A reference double-ended queue, as a specification: the logical sequence
//! a deque holds after a series of pushes and pops at either end.
//!
//! Each mutating operation of `ArrayDeque` and `TinyDeque` states in its
//! `ensures` that the view evolves exactly as `apply_op` says, so after any
//! interleaving of operations the view equals `apply_ops` of that
//! interleaving, run from the empty sequence.

use vstd::prelude::*;

verus! {

/// One double-ended-queue operation.
pub enum DequeOp<T> {
    PushBack(T),
    PushFront(T),
    PopBack,
    PopFront,
}

/// What one operation does to the logical front-to-back sequence: a push
/// adds at the chosen end, a pop removes at the chosen end and leaves an
/// empty sequence unchanged.
pub open spec fn apply_op<T>(s: Seq<T>, op: DequeOp<T>) -> Seq<T> {
    match op {
        DequeOp::PushBack(x) => s.push(x),
        DequeOp::PushFront(x) => seq![x] + s,
        DequeOp::PopBack => if s.len() > 0 {
            s.drop_last()
        } else {
            s
        },
        DequeOp::PopFront => if s.len() > 0 {
            s.subrange(1, s.len() as int)
        } else {
            s
        },
    }
}

/// The sequence left after running a whole series of operations, oldest
/// first, starting from `s`.
pub open spec fn apply_ops<T>(s: Seq<T>, ops: Seq<DequeOp<T>>) -> Seq<T>
    decreases ops.len(),
{
    if ops.len() == 0 {
        s
    } else {
        apply_op(apply_ops(s, ops.drop_last()), ops.last())
    }
}

/// How many of the operations are pushes, at either end.
pub open spec fn count_pushes<T>(ops: Seq<DequeOp<T>>) -> int
    decreases ops.len(),
{
    if ops.len() == 0 {
        0
    } else {
        count_pushes(ops.drop_last()) + match ops.last() {
            DequeOp::PushBack(_) => 1int,
            DequeOp::PushFront(_) => 1int,
            DequeOp::PopBack => 0int,
            DequeOp::PopFront => 0int,
        }
    }
}

/// How many of the operations are pops, at either end.
pub open spec fn count_pops<T>(ops: Seq<DequeOp<T>>) -> int
    decreases ops.len(),
{
    if ops.len() == 0 {
        0
    } else {
        count_pops(ops.drop_last()) + match ops.last() {
            DequeOp::PushBack(_) => 0int,
            DequeOp::PushFront(_) => 0int,
            DequeOp::PopBack => 1int,
            DequeOp::PopFront => 1int,
        }
    }
}

/// An interleaving that, run from empty, never pops below empty and never
/// holds more than `cap` elements: every prefix keeps pushes-minus-pops
/// within `[0, cap]`.
pub open spec fn bounded_interleaving<T>(ops: Seq<DequeOp<T>>, cap: int) -> bool {
    forall|k: int|
        0 <= k <= ops.len() ==> 0 <= count_pushes(#[trigger] ops.take(k)) - count_pops(
            ops.take(k),
        ) <= cap
}

/// For any interleaving of back and front pushes and pops that starts from
/// empty, never pops below empty and never exceeds the capacity `cap`, the
/// resulting logical sequence holds exactly pushes-minus-pops elements.
pub proof fn lemma_interleaving_len<T>(ops: Seq<DequeOp<T>>, cap: int)
    requires
        bounded_interleaving(ops, cap),
    ensures
        apply_ops(Seq::<T>::empty(), ops).len() == count_pushes(ops) - count_pops(ops),
    decreases ops.len(),
{
    if ops.len() > 0 {
        let p = ops.drop_last();
        assert forall|k: int|
            0 <= k <= p.len() implies 0 <= count_pushes(#[trigger] p.take(k)) - count_pops(
            p.take(k),
        ) <= cap by {
            assert(p.take(k) =~= ops.take(k));
            assert(0 <= count_pushes(ops.take(k)) - count_pops(ops.take(k)) <= cap);
        }
        lemma_interleaving_len::<T>(p, cap);
        assert(ops.take(ops.len() as int) =~= ops);
        assert(p.take(p.len() as int) =~= p);
        assert(0 <= count_pushes(ops) - count_pops(ops) <= cap);
        assert(0 <= count_pushes(p) - count_pops(p) <= cap);
    }
}

/// The series of operations that pushes `elems` onto the back, in order.
pub open spec fn push_back_ops<T>(elems: Seq<T>) -> Seq<DequeOp<T>> {
    Seq::new(elems.len(), |i: int| DequeOp::PushBack(elems[i]))
}

/// Pushing a series of elements onto the back, oldest first, appends exactly
/// that series: the final logical sequence is the one a plain growable deque
/// would hold after the same pushes.
pub proof fn lemma_push_backs_in_order<T>(s: Seq<T>, elems: Seq<T>)
    ensures
        apply_ops(s, push_back_ops(elems)) == s + elems,
    decreases elems.len(),
{
    if elems.len() == 0 {
        assert(s + elems =~= s);
    } else {
        let p = elems.drop_last();
        assert(push_back_ops(elems).drop_last() =~= push_back_ops(p));
        lemma_push_backs_in_order(s, p);
        assert((s + p).push(elems.last()) =~= s + elems);
    }
}

} // verus!
