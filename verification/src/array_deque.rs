//! A fixed-capacity double-ended queue backed by `N` storage slots allocated
//! once at construction and addressed with wraparound indices.
//!
//! The logical contents are the sequence of live elements from front to back;
//! every contract below is stated against that sequence (the view `self@`).
//! `length` is the single source of truth distinguishing "empty" from "full"
//! (`head == tail` alone is ambiguous). Slots whose element has been popped or
//! truncated away are released by overwriting them with a neutral value, so
//! ownership of removed elements is never retained.

use vstd::prelude::*;
use vstd::slice::slice_subrange;
use vstd::std_specs::cmp::PartialEqSpec;

verus! {

/// A deque structure that uses `N` once-allocated storage slots as backing
/// storage. `head` is the slot for the next back-push, `tail` the slot of the
/// current front element, `len` the count of live elements.
#[derive(Clone, Debug)]
pub struct ArrayDeque<T, const N: usize> {
    storage: Vec<T>,
    head: usize,
    tail: usize,
    len: usize,
}

impl<T, const N: usize> ArrayDeque<T, N> {
    /// The storage slot holding the logical element `i` places after slot
    /// `tail`: `(tail + i) % N`, written without modulo since `tail < N`.
    pub closed spec fn slot_at(tail: int, i: int) -> int {
        if tail + i < N {
            tail + i
        } else {
            tail + i - N
        }
    }

    /// The logical front-to-back sequence read out of `storage` starting at
    /// slot `tail`, for `len` elements.
    pub closed spec fn view_of(storage: Seq<T>, tail: int, len: nat) -> Seq<T> {
        Seq::new(len, |i: int| storage[Self::slot_at(tail, i)])
    }

    /// The storage slot holding logical element `i` (logical index 0 is the
    /// front).
    pub closed spec fn slot(self, i: int) -> int {
        Self::slot_at(self.tail as int, i)
    }

    /// Well-formedness: the backing storage spans exactly `N` slots, the
    /// length never exceeds the capacity, `head` and `tail` are normalized
    /// into `[0, N)`, and `head` is the slot one past the back element.
    pub closed spec fn wf(self) -> bool {
        &&& self.storage@.len() == N
        &&& self.len <= N
        &&& if N == 0 {
            self.head == 0 && self.tail == 0
        } else {
            self.head < N && self.tail < N
        }
        &&& self.head == self.slot(self.len as int)
    }

    /// The buffer occupies one unbroken run of the backing storage.
    pub closed spec fn contiguous(self) -> bool {
        self.tail <= self.head
    }

    /// Distinct logical indices in `[0, N)` live in distinct storage slots.
    proof fn lemma_slot_distinct(self, i: int, j: int)
        requires
            N > 0,
            self.tail < N,
            0 <= i < N,
            0 <= j < N,
            i != j,
        ensures
            self.slot(i) != self.slot(j),
    {
    }

    /// Writing `v` into the slot of logical index `idx` updates the logical
    /// sequence at `idx` and nowhere else.
    proof fn lemma_view_write(self, idx: int, v: T)
        requires
            self.wf(),
            0 <= idx < self.len,
        ensures
            Self::view_of(
                self.storage@.update(self.slot(idx), v),
                self.tail as int,
                self.len as nat,
            ) == self@.update(idx, v),
    {
        assert forall|i: int|
            0 <= i < self.len && i != idx implies self.storage@.update(self.slot(idx), v)[self.slot(
            i,
        )] == self.storage@[self.slot(i)] by {
            self.lemma_slot_distinct(i, idx);
        }
        assert(Self::view_of(
            self.storage@.update(self.slot(idx), v),
            self.tail as int,
            self.len as nat,
        ) =~= self@.update(idx, v));
    }
}

impl<T, const N: usize> View for ArrayDeque<T, N> {
    type V = Seq<T>;

    closed spec fn view(&self) -> Seq<T> {
        ArrayDeque::<T, N>::view_of(self.storage@, self.tail as int, self.len as nat)
    }
}

/// A well-formed `ArrayDeque` never holds more than `N` elements.
pub broadcast proof fn lemma_wf_len_bound<T, const N: usize>(d: ArrayDeque<T, N>)
    ensures
        #[trigger] d.wf() ==> d@.len() <= N,
{
}

/// Remove the element at slot `i`, leaving a neutral value in its place so
/// the vector never retains ownership of the removed element.
fn take_slot<T: Default>(v: &mut Vec<T>, i: usize) -> (r: T)
    requires
        i < old(v).len(),
    ensures
        r == old(v)@[i as int],
        final(v)@.len() == old(v)@.len(),
        forall|j: int| 0 <= j < old(v)@.len() && j != i ==> final(v)@[j] == old(v)@[j],
{
    let mut tmp: T = T::default();
    core::mem::swap(&mut tmp, &mut v[i]);
    tmp
}

impl<T: Default, const N: usize> ArrayDeque<T, N> {
    /// The storage slot holding logical element `i`, computed without
    /// overflow: `(tail + i) % N`.
    fn slot_of(&self, i: usize) -> (r: usize)
        requires
            self.wf(),
            N > 0,
            i <= N,
        ensures
            r == self.slot(i as int),
            r < N,
    {
        let rem = N - self.tail;
        if i < rem {
            self.tail + i
        } else {
            i - rem
        }
    }

    /// Create a new, empty `ArrayDeque` with `head = tail = length = 0`.
    pub fn new() -> (r: Self)
        ensures
            r.wf(),
            r@ == Seq::<T>::empty(),
    {
        let mut storage: Vec<T> = Vec::new();
        let mut i: usize = 0;
        while i < N
            invariant
                i <= N,
                storage@.len() == i,
            decreases N - i,
        {
            storage.push(T::default());
            i = i + 1;
        }
        let r = ArrayDeque { storage, head: 0, tail: 0, len: 0 };
        proof {
            assert(r@ =~= Seq::<T>::empty());
        }
        r
    }

    /// The capacity of this `ArrayDeque`: the maximum number of elements it
    /// can hold.
    pub fn capacity() -> (r: usize)
        ensures
            r == N,
    {
        N
    }

    /// The number of live elements.
    pub fn len(&self) -> (r: usize)
        ensures
            r == self@.len(),
    {
        self.len
    }

    /// Whether this `ArrayDeque` holds no elements.
    pub fn is_empty(&self) -> (r: bool)
        ensures
            r == (self@.len() == 0),
    {
        self.len == 0
    }

    /// Whether this `ArrayDeque` holds `N` elements. A zero-capacity deque is
    /// both empty and full.
    pub fn is_full(&self) -> (r: bool)
        ensures
            r == (self@.len() == N),
    {
        self.len == N
    }

    /// Push an element onto the back. On a full deque this fails, handing the
    /// rejected element back unchanged and leaving the deque untouched.
    pub fn try_push_back(&mut self, element: T) -> (r: Result<(), T>)
        requires
            old(self).wf(),
        ensures
            final(self).wf(),
            old(self)@.len() == N ==> r == Err::<(), T>(element) && *final(self) == *old(self),
            old(self)@.len() < N ==> r == Ok::<(), T>(()) && final(self)@ == old(self)@.push(
                element,
            ),
    {
        if self.is_full() {
            return Err(element);
        }
        let h = self.head;
        self.head = if h + 1 == N {
            0
        } else {
            h + 1
        };
        self.storage[h] = element;
        self.len = self.len + 1;
        proof {
            assert forall|i: int| 0 <= i < old(self)@.len() implies self@[i] == old(self)@[i] by {
                old(self).lemma_slot_distinct(i, old(self).len as int);
            }
            assert(self@ =~= old(self)@.push(element));
        }
        Ok(())
    }

    /// Push an element onto the back. The caller must have pre-verified
    /// capacity: this variant is only callable on a non-full deque.
    pub fn push_back(&mut self, element: T)
        requires
            old(self).wf(),
            old(self)@.len() < N,
        ensures
            final(self).wf(),
            final(self)@ == old(self)@.push(element),
    {
        match self.try_push_back(element) {
            Ok(()) => {},
            Err(_) => {
                proof {
                    assert(false);
                }
            },
        }
    }

    /// Push an element onto the front. On a full deque this fails, handing
    /// the rejected element back unchanged and leaving the deque untouched.
    pub fn try_push_front(&mut self, element: T) -> (r: Result<(), T>)
        requires
            old(self).wf(),
        ensures
            final(self).wf(),
            old(self)@.len() == N ==> r == Err::<(), T>(element) && *final(self) == *old(self),
            old(self)@.len() < N ==> r == Ok::<(), T>(()) && final(self)@ == seq![element]
                + old(self)@,
    {
        if self.is_full() {
            return Err(element);
        }
        let t = if self.tail == 0 {
            N - 1
        } else {
            self.tail - 1
        };
        self.tail = t;
        self.storage[t] = element;
        self.len = self.len + 1;
        proof {
            assert(t == old(self).slot(N - 1));
            assert forall|i: int| 0 <= i < old(self)@.len() implies self@[i + 1] == old(
                self,
            )@[i] by {
                old(self).lemma_slot_distinct(i, N - 1);
                assert(self.slot(i + 1) == old(self).slot(i));
            }
            assert(self@ =~= seq![element] + old(self)@);
        }
        Ok(())
    }

    /// Push an element onto the front. The caller must have pre-verified
    /// capacity: this variant is only callable on a non-full deque.
    pub fn push_front(&mut self, element: T)
        requires
            old(self).wf(),
            old(self)@.len() < N,
        ensures
            final(self).wf(),
            final(self)@ == seq![element] + old(self)@,
    {
        match self.try_push_front(element) {
            Ok(()) => {},
            Err(_) => {
                proof {
                    assert(false);
                }
            },
        }
    }

    /// Pop an element from the back, releasing its slot. On an empty deque
    /// nothing happens and no value is produced.
    pub fn pop_back(&mut self) -> (r: Option<T>)
        requires
            old(self).wf(),
        ensures
            final(self).wf(),
            old(self)@.len() == 0 ==> r is None && *final(self) == *old(self),
            old(self)@.len() > 0 ==> r == Some(old(self)@.last()) && final(self)@ == old(
                self,
            )@.drop_last(),
    {
        if self.is_empty() {
            return None;
        }
        let h = if self.head == 0 {
            N - 1
        } else {
            self.head - 1
        };
        proof {
            assert(h == old(self).slot(old(self).len - 1));
        }
        let x = take_slot(&mut self.storage, h);
        self.head = h;
        self.len = self.len - 1;
        proof {
            assert forall|i: int| 0 <= i < self@.len() implies self@[i] == old(self)@[i] by {
                old(self).lemma_slot_distinct(i, old(self).len - 1);
            }
            assert(self@ =~= old(self)@.drop_last());
        }
        Some(x)
    }

    /// Pop an element from the front, releasing its slot. On an empty deque
    /// nothing happens and no value is produced.
    pub fn pop_front(&mut self) -> (r: Option<T>)
        requires
            old(self).wf(),
        ensures
            final(self).wf(),
            old(self)@.len() == 0 ==> r is None && *final(self) == *old(self),
            old(self)@.len() > 0 ==> r == Some(old(self)@[0]) && final(self)@ == old(
                self,
            )@.subrange(1, old(self)@.len() as int),
    {
        if self.is_empty() {
            return None;
        }
        let t = self.tail;
        let x = take_slot(&mut self.storage, t);
        self.tail = if t + 1 == N {
            0
        } else {
            t + 1
        };
        self.len = self.len - 1;
        proof {
            assert forall|i: int| 0 <= i < self@.len() implies self@[i] == old(self)@[i + 1] by {
                old(self).lemma_slot_distinct(i + 1, 0);
                assert(self.slot(i) == old(self).slot(i + 1));
            }
            assert(self.head == self.slot(self.len as int)) by {
                assert(self.slot(self.len as int) == old(self).slot(old(self).len as int));
            }
            assert(self@ =~= old(self)@.subrange(1, old(self)@.len() as int));
        }
        Some(x)
    }

    /// Get a reference to the element at logical index `index` (0 is the
    /// front), or no value when the index is out of range.
    pub fn get(&self, index: usize) -> (r: Option<&T>)
        requires
            self.wf(),
        ensures
            index < self@.len() ==> r is Some && r.unwrap() == self@[index as int],
            index >= self@.len() ==> r is None,
    {
        if index < self.len {
            let s = self.slot_of(index);
            Some(&self.storage[s])
        } else {
            None
        }
    }

    /// Get a mutable reference to the element at logical index `index`, or no
    /// value when the index is out of range. The deque afterwards holds
    /// whatever the caller wrote through the reference, at that index.
    pub fn get_mut(&mut self, index: usize) -> (r: Option<&mut T>)
        requires
            old(self).wf(),
        ensures
            final(self).wf(),
            index < old(self)@.len() ==> r is Some && *r.unwrap() == old(self)@[index as int]
                && final(self)@ == old(self)@.update(index as int, *final(r.unwrap())),
            index >= old(self)@.len() ==> r is None && *final(self) == *old(self),
    {
        if index < self.len {
            let s = self.slot_of(index);
            let ghost pre = *self;
            proof {
                assert forall|v: T|
                    #[trigger] Self::view_of(
                        pre.storage@.update(pre.slot(index as int), v),
                        pre.tail as int,
                        pre.len as nat,
                    ) == pre@.update(index as int, v) by {
                    pre.lemma_view_write(index as int, v);
                }
            }
            let m = &mut self.storage[s];
            Some(m)
        } else {
            None
        }
    }

    /// Whether the live run does not wrap past the end of storage, i.e.
    /// `tail <= head`.
    pub fn is_contiguous(&self) -> (r: bool)
        ensures
            r == self.contiguous(),
    {
        self.tail <= self.head
    }

    /// The contents as an ordered pair of zero-copy slice views whose
    /// concatenation is the logical front-to-back sequence. When the run does
    /// not wrap, the second slice is empty; when it wraps, the first slice
    /// spans from `tail` to the end of storage and the second from the start
    /// of storage to `head`.
    pub fn as_slices(&self) -> (r: (&[T], &[T]))
        requires
            self.wf(),
        ensures
            r.0@ + r.1@ == self@,
    {
        let s: &[T] = self.storage.as_slice();
        if self.len == 0 || self.tail <= N - self.len {
            let first = slice_subrange(s, self.tail, self.tail + self.len);
            let second = slice_subrange(s, 0, 0);
            proof {
                assert(first@ + second@ =~= self@);
            }
            (first, second)
        } else {
            let first = slice_subrange(s, self.tail, N);
            let second = slice_subrange(s, 0, self.head);
            proof {
                assert(first@ + second@ =~= self@);
            }
            (first, second)
        }
    }

    /// Truncate the deque to at most `len` elements, keeping exactly the
    /// first `len` logical elements and releasing the slots of the dropped
    /// trailing ones, nearest the back first. Asking for the current length
    /// or more leaves the deque untouched.
    pub fn truncate(&mut self, len: usize)
        requires
            old(self).wf(),
        ensures
            final(self).wf(),
            len <= old(self)@.len() ==> final(self)@ == old(self)@.subrange(0, len as int),
            len >= old(self)@.len() ==> *final(self) == *old(self),
    {
        if len >= self.len {
            proof {
                if len <= self@.len() {
                    assert(self@.subrange(0, len as int) =~= self@);
                }
            }
            return ;
        }
        let mut j: usize = self.len;
        while j > len
            invariant
                old(self).wf(),
                self.wf(),
                len <= j <= self.len,
                self.len == old(self).len,
                self.head == old(self).head,
                self.tail == old(self).tail,
                self.storage@.len() == N,
                forall|i: int| 0 <= i < j ==> self@[i] == old(self)@[i],
            decreases j - len,
        {
            j = j - 1;
            let s = self.slot_of(j);
            let d = T::default();
            proof {
                assert forall|i: int| 0 <= i < j implies self.storage@.update(
                    self.slot(j as int),
                    d,
                )[self.slot(i)] == self.storage@[self.slot(i)] by {
                    self.lemma_slot_distinct(i, j as int);
                }
            }
            self.storage[s] = d;
        }
        let h = self.slot_of(len);
        self.head = h;
        self.len = len;
        proof {
            assert(self@ =~= old(self)@.subrange(0, len as int));
        }
    }

    /// Remove all elements, releasing every live slot.
    pub fn clear(&mut self)
        requires
            old(self).wf(),
        ensures
            final(self).wf(),
            final(self)@ == Seq::<T>::empty(),
    {
        self.truncate(0);
        proof {
            assert(self@ =~= Seq::<T>::empty());
        }
    }

    /// Drain `other` front-to-back onto the back of `self`, leaving `other`
    /// empty. When the combined contents would not fit, nothing on either
    /// side is touched and the append is rejected.
    pub fn append(&mut self, other: &mut Self) -> (r: Result<(), ()>)
        requires
            old(self).wf(),
            old(other).wf(),
        ensures
            final(self).wf(),
            final(other).wf(),
            old(self)@.len() + old(other)@.len() > N ==> r == Err::<(), ()>(()) && *final(self)
                == *old(self) && *final(other) == *old(other),
            old(self)@.len() + old(other)@.len() <= N ==> r == Ok::<(), ()>(()) && final(self)@
                == old(self)@ + old(other)@ && final(other)@ == Seq::<T>::empty(),
    {
        if other.len > N - self.len {
            return Err(());
        }
        let n = other.len;
        let mut k: usize = 0;
        while k < n
            invariant
                self.wf(),
                other.wf(),
                k <= n,
                n == old(other)@.len(),
                other@.len() == n - k,
                self@.len() == old(self)@.len() + k,
                self@.len() + other@.len() <= N,
                self@ + other@ == old(self)@ + old(other)@,
            decreases n - k,
        {
            let ghost pre_self = self@;
            let ghost pre_other = other@;
            match other.pop_front() {
                Some(item) => {
                    self.push_back(item);
                    proof {
                        assert(self@ + other@ =~= (pre_self + pre_other));
                    }
                },
                None => {},
            }
            k = k + 1;
        }
        proof {
            assert(self@ =~= self@ + other@);
            assert(other@ =~= Seq::<T>::empty());
        }
        Ok(())
    }

    /// The contents as an ordered pair of mutable zero-copy slice views. The
    /// concatenation of the two views is the logical front-to-back sequence,
    /// both as handed out and after the caller is done writing through them.
    pub fn as_mut_slices(&mut self) -> (r: (&mut [T], &mut [T]))
        requires
            old(self).wf(),
        ensures
            r.0@ + r.1@ == old(self)@,
            final(r.0)@.len() == r.0@.len() && final(r.1)@.len() == r.1@.len() ==> final(self).wf()
                && final(self)@ == final(r.0)@ + final(r.1)@,
    {
        let ghost pre = *self;
        let ghost nn = N as int;
        let ghost t = pre.tail as int;
        let ghost l = pre.len as int;
        if self.len == 0 || self.tail <= N - self.len {
            proof {
                assert(pre.storage@.subrange(t, nn).subrange(0, l) =~= pre.storage@.subrange(
                    t,
                    t + l,
                ));
                assert(pre.storage@.subrange(t, t + l) + pre.storage@.subrange(t, nn).subrange(
                    l,
                    nn - t,
                ).subrange(0, 0) =~= pre@);
                assert(pre.storage@.subrange(t, nn).subrange(l, nn - t) =~= pre.storage@.subrange(
                    t + l,
                    nn,
                ));
                assert forall|s2: Seq<T>| #[trigger] s2.subrange(0, s2.len() as int) == s2 by {
                    assert(s2.subrange(0, s2.len() as int) =~= s2);
                }
                assert forall|u: Seq<T>, v: Seq<T>|
                    #![trigger u + v]
                    u.len() == l && v.len() == 0 implies Self::view_of(
                    pre.storage@.subrange(0, t) + (u + (v + pre.storage@.subrange(t + l, nn))),
                    t,
                    pre.len as nat,
                ) == u + v by {
                    assert(Self::view_of(
                        pre.storage@.subrange(0, t) + (u + (v + pre.storage@.subrange(t + l, nn))),
                        t,
                        pre.len as nat,
                    ) =~= u + v);
                }
            }
            let s: &mut [T] = self.storage.as_mut_slice();
            let (_front_gap, live) = s.split_at_mut(self.tail);
            let (first, rest) = live.split_at_mut(self.len);
            let (second, _back_gap) = rest.split_at_mut(0);
            (first, second)
        } else {
            proof {
                assert(pre.storage@.subrange(0, t).subrange(0, pre.head as int)
                    =~= pre.storage@.subrange(0, pre.head as int));
                assert(pre.storage@.subrange(t, nn) + pre.storage@.subrange(0, pre.head as int)
                    =~= pre@);
                assert(pre.storage@.subrange(0, t).subrange(pre.head as int, t)
                    =~= pre.storage@.subrange(pre.head as int, t));
                assert forall|s2: Seq<T>| #[trigger] s2.subrange(0, s2.len() as int) == s2 by {
                    assert(s2.subrange(0, s2.len() as int) =~= s2);
                }
                assert forall|u: Seq<T>, v: Seq<T>|
                    #![trigger u + v]
                    u.len() == nn - t && v.len() == pre.head implies Self::view_of(
                    (v + pre.storage@.subrange(pre.head as int, t)) + u,
                    t,
                    pre.len as nat,
                ) == u + v by {
                    assert(Self::view_of(
                        (v + pre.storage@.subrange(pre.head as int, t)) + u,
                        t,
                        pre.len as nat,
                    ) =~= u + v);
                }
            }
            let s: &mut [T] = self.storage.as_mut_slice();
            let (below_tail, first) = s.split_at_mut(self.tail);
            let (second, _mid_gap) = below_tail.split_at_mut(self.head);
            (first, second)
        }
    }

    /// Get a reference to the front element, or no value when empty.
    pub fn front(&self) -> (r: Option<&T>)
        requires
            self.wf(),
        ensures
            self@.len() > 0 ==> r is Some && r.unwrap() == self@[0],
            self@.len() == 0 ==> r is None,
    {
        self.get(0)
    }

    /// Get a reference to the back element, or no value when empty.
    pub fn back(&self) -> (r: Option<&T>)
        requires
            self.wf(),
        ensures
            self@.len() > 0 ==> r is Some && r.unwrap() == self@.last(),
            self@.len() == 0 ==> r is None,
    {
        if self.len == 0 {
            None
        } else {
            self.get(self.len - 1)
        }
    }

    /// Get a mutable reference to the front element, or no value when empty.
    pub fn front_mut(&mut self) -> (r: Option<&mut T>)
        requires
            old(self).wf(),
        ensures
            final(self).wf(),
            old(self)@.len() > 0 ==> r is Some && *r.unwrap() == old(self)@[0] && final(self)@
                == old(self)@.update(0, *final(r.unwrap())),
            old(self)@.len() == 0 ==> r is None && *final(self) == *old(self),
    {
        self.get_mut(0)
    }

    /// Get a mutable reference to the back element, or no value when empty.
    pub fn back_mut(&mut self) -> (r: Option<&mut T>)
        requires
            old(self).wf(),
        ensures
            final(self).wf(),
            old(self)@.len() > 0 ==> r is Some && *r.unwrap() == old(self)@.last()
                && final(self)@ == old(self)@.update(old(self)@.len() - 1, *final(r.unwrap())),
            old(self)@.len() == 0 ==> r is None && *final(self) == *old(self),
    {
        if self.len == 0 {
            None
        } else {
            self.get_mut(self.len - 1)
        }
    }

    /// Whether some live element compares equal to `item`, by a linear scan
    /// front to back.
    pub fn contains(&self, item: &T) -> (r: bool) where T: PartialEq
        requires
            self.wf(),
        ensures
            T::obeys_eq_spec() ==> r == exists|i: int|
                0 <= i < self@.len() && self@[i].eq_spec(item),
    {
        let mut k: usize = 0;
        while k < self.len
            invariant
                self.wf(),
                k <= self@.len(),
                T::obeys_eq_spec() ==> forall|i: int| 0 <= i < k ==> !self@[i].eq_spec(item),
            decreases self@.len() - k,
        {
            let s = self.slot_of(k);
            if self.storage[s] == *item {
                proof {
                    if T::obeys_eq_spec() {
                        assert(self@[k as int].eq_spec(item));
                    }
                }
                return true;
            }
            proof {
                if T::obeys_eq_spec() {
                    assert(!self@[k as int].eq_spec(item));
                }
            }
            k = k + 1;
        }
        false
    }
}

/// An iterator over the elements of an `ArrayDeque`: double-ended,
/// exact-length, and yielding nothing further once exhausted.
#[derive(Clone)]
pub struct Iter<'a, T, const N: usize> {
    deque: &'a ArrayDeque<T, N>,
    pos: usize,
    end: usize,
}

impl<'a, T, const N: usize> Iter<'a, T, N> {
    /// Well-formedness: the cursor pair brackets a live range of the deque.
    pub closed spec fn wf(self) -> bool {
        &&& self.deque.wf()
        &&& self.pos <= self.end <= self.deque@.len()
    }
}

impl<'a, T, const N: usize> View for Iter<'a, T, N> {
    type V = Seq<T>;

    closed spec fn view(&self) -> Seq<T> {
        self.deque@.subrange(self.pos as int, self.end as int)
    }
}

impl<'a, T: Default, const N: usize> Iter<'a, T, N> {
    /// Yield a reference to the next element from the front of the remaining
    /// range, or no value once the range is exhausted.
    pub fn next(&mut self) -> (r: Option<&'a T>)
        requires
            old(self).wf(),
        ensures
            final(self).wf(),
            old(self)@.len() == 0 ==> r is None && *final(self) == *old(self),
            old(self)@.len() > 0 ==> r is Some && r.unwrap() == old(self)@[0] && final(self)@
                == old(self)@.subrange(1, old(self)@.len() as int),
    {
        if self.pos == self.end {
            None
        } else {
            let r = self.deque.get(self.pos);
            self.pos = self.pos + 1;
            proof {
                assert(self@ =~= old(self)@.subrange(1, old(self)@.len() as int));
            }
            r
        }
    }

    /// Yield a reference to the next element from the back of the remaining
    /// range, or no value once the range is exhausted.
    pub fn next_back(&mut self) -> (r: Option<&'a T>)
        requires
            old(self).wf(),
        ensures
            final(self).wf(),
            old(self)@.len() == 0 ==> r is None && *final(self) == *old(self),
            old(self)@.len() > 0 ==> r is Some && r.unwrap() == old(self)@.last()
                && final(self)@ == old(self)@.drop_last(),
    {
        if self.pos == self.end {
            None
        } else {
            let e = self.end - 1;
            let r = self.deque.get(e);
            self.end = e;
            proof {
                assert(self@ =~= old(self)@.drop_last());
            }
            r
        }
    }

    /// The exact number of elements left: both bounds equal the remaining
    /// length.
    pub fn size_hint(&self) -> (r: (usize, Option<usize>))
        requires
            self.wf(),
        ensures
            r.0 == self@.len(),
            r.1 == Some(r.0),
    {
        let n = self.end - self.pos;
        (n, Some(n))
    }
}

impl<T: Default, const N: usize> ArrayDeque<T, N> {
    /// An iterator over the whole deque, front to back.
    pub fn iter<'a>(&'a self) -> (it: Iter<'a, T, N>)
        requires
            self.wf(),
        ensures
            it.wf(),
            it@ == self@,
    {
        let it = Iter { deque: self, pos: 0, end: self.len };
        proof {
            assert(it@ =~= self@);
        }
        it
    }
}

impl<T: Default, const N: usize> Default for ArrayDeque<T, N> {
    /// An empty deque, exactly as `new` builds it.
    fn default() -> (r: Self)
        ensures
            r.wf(),
            r@ == Seq::<T>::empty(),
    {
        ArrayDeque::new()
    }
}

} // verus!
