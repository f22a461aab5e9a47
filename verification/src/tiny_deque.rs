//! A two-state double-ended queue: it starts on a fixed-capacity
//! `ArrayDeque` (the stack state) and, the first time a push overflows that
//! capacity, spills once and irrevocably onto a growable `VecDeque` (the heap
//! state), preserving the logical order. Every operation afterwards goes to
//! the heap arm; the transition never reverses.

use crate::array_deque::ArrayDeque;
use crate::array_deque::Iter as ArrayDequeIter;
use std::collections::VecDeque;
use vstd::prelude::*;

verus! {

broadcast use crate::array_deque::lemma_wf_len_bound;

/// Relies on std's `VecDeque::get_mut`: a mutable reference to the element
/// at `index` (0 is the front), or no value when `index` is out of bounds;
/// afterwards the deque holds what was written through the reference, there.
#[verifier::external_body]
fn vec_deque_get_mut<T>(v: &mut VecDeque<T>, index: usize) -> (r: Option<&mut T>)
    ensures
        index < old(v)@.len() ==> r is Some && *r.unwrap() == old(v)@[index as int] && final(v)@
            == old(v)@.update(index as int, *final(r.unwrap())),
        index >= old(v)@.len() ==> r is None && final(v)@ == old(v)@,
{
    v.get_mut(index)
}

/// Relies on std's `VecDeque::as_slices`: a pair of slices which contain, in
/// order, the contents of the deque.
#[verifier::external_body]
fn vec_deque_as_slices<T>(v: &VecDeque<T>) -> (r: (&[T], &[T]))
    ensures
        r.0@ + r.1@ == v@,
{
    v.as_slices()
}

/// Relies on std's `VecDeque::as_mut_slices`: a pair of mutable slices which
/// contain, in order, the contents of the deque; afterwards the deque holds,
/// in order, what the two slices hold.
#[verifier::external_body]
fn vec_deque_as_mut_slices<T>(v: &mut VecDeque<T>) -> (r: (&mut [T], &mut [T]))
    ensures
        r.0@ + r.1@ == old(v)@,
        final(v)@ == final(r.0)@ + final(r.1)@,
{
    v.as_mut_slices()
}

/// A deque that starts on fixed-size storage and spills onto the heap, once,
/// if that storage overflows.
#[derive(Clone)]
pub enum TinyDeque<T, const N: usize> {
    Stack(ArrayDeque<T, N>),
    Heap(VecDeque<T>),
}

impl<T, const N: usize> TinyDeque<T, N> {
    /// Whether the one-way transition to the heap state has happened.
    pub open spec fn spilled(self) -> bool {
        self is Heap
    }

    /// Well-formedness of whichever arm is active.
    pub open spec fn wf(self) -> bool {
        match self {
            TinyDeque::Stack(s) => s.wf(),
            TinyDeque::Heap(_) => true,
        }
    }
}

impl<T, const N: usize> View for TinyDeque<T, N> {
    type V = Seq<T>;

    closed spec fn view(&self) -> Seq<T> {
        match *self {
            TinyDeque::Stack(s) => s@,
            TinyDeque::Heap(v) => v@,
        }
    }
}

impl<T: Default, const N: usize> TinyDeque<T, N> {
    /// Create a new `TinyDeque`, in the stack state and empty.
    pub fn new() -> (r: Self)
        ensures
            r.wf(),
            r@ == Seq::<T>::empty(),
            !r.spilled(),
    {
        TinyDeque::Stack(ArrayDeque::new())
    }

    /// Create a new, empty `TinyDeque` sized for `cap` elements. A request
    /// for more than the fixed capacity starts directly in the heap state,
    /// pre-sized to `cap`; any smaller request starts in the stack state,
    /// whose capacity already covers it.
    pub fn with_capacity(cap: usize) -> (r: Self)
        ensures
            r.wf(),
            r@ == Seq::<T>::empty(),
            r.spilled() <==> cap > N,
    {
        if cap > N {
            TinyDeque::Heap(VecDeque::with_capacity(cap))
        } else {
            TinyDeque::Stack(ArrayDeque::new())
        }
    }

    /// The number of live elements.
    pub fn len(&self) -> (r: usize)
        ensures
            r == self@.len(),
    {
        match self {
            TinyDeque::Stack(s) => s.len(),
            TinyDeque::Heap(v) => v.len(),
        }
    }

    /// Whether this `TinyDeque` holds no elements.
    pub fn is_empty(&self) -> (r: bool)
        ensures
            r == (self@.len() == 0),
    {
        match self {
            TinyDeque::Stack(s) => s.is_empty(),
            TinyDeque::Heap(v) => v.len() == 0,
        }
    }

    /// Move the stack-state contents onto a freshly allocated growable deque
    /// sized to hold them and one more element, front-to-back so the logical
    /// order is preserved, and switch to the heap state. In the heap state
    /// this does nothing.
    fn spill(&mut self)
        requires
            old(self).wf(),
        ensures
            final(self).wf(),
            final(self).spilled(),
            final(self)@ == old(self)@,
    {
        match self {
            TinyDeque::Heap(_) => {},
            TinyDeque::Stack(s) => {
                let mut heap: VecDeque<T> = VecDeque::with_capacity(s.len().saturating_add(1));
                let n = s.len();
                proof {
                    assert(heap@ + s@ =~= old(self)@);
                }
                let mut k: usize = 0;
                while k < n
                    invariant
                        s.wf(),
                        k <= n,
                        s@.len() == n - k,
                        heap@ + s@ == old(self)@,
                    decreases n - k,
                {
                    let ghost ph = heap@;
                    let ghost ps = s@;
                    match s.pop_front() {
                        Some(item) => {
                            heap.push_back(item);
                            proof {
                                assert(heap@ + s@ =~= ph + ps);
                            }
                        },
                        None => {},
                    }
                    k = k + 1;
                }
                proof {
                    assert(heap@ =~= heap@ + s@);
                }
                *self = TinyDeque::Heap(heap);
            },
        }
    }

    /// Push an element onto the back. In the stack state a push that would
    /// overflow the fixed capacity first spills onto the heap, then the
    /// rejected element goes onto the back; the heap state delegates
    /// directly.
    pub fn push_back(&mut self, element: T)
        requires
            old(self).wf(),
        ensures
            final(self).wf(),
            final(self)@ == old(self)@.push(element),
            old(self).spilled() ==> final(self).spilled(),
            !old(self).spilled() && old(self)@.len() < N ==> !final(self).spilled(),
            !old(self).spilled() && old(self)@.len() == N ==> final(self).spilled(),
    {
        let rejected: T = match self {
            TinyDeque::Heap(v) => {
                v.push_back(element);
                return ;
            },
            TinyDeque::Stack(s) => {
                match s.try_push_back(element) {
                    Ok(()) => {
                        return ;
                    },
                    Err(reject) => reject,
                }
            },
        };
        self.spill();
        match self {
            TinyDeque::Heap(v) => {
                v.push_back(rejected);
            },
            TinyDeque::Stack(_) => {
                proof {
                    assert(false);
                }
            },
        }
    }

    /// Push an element onto the front. The element goes to the front in both
    /// states, and stays at the front across a spill: a push that would
    /// overflow the fixed capacity first spills onto the heap, then the
    /// rejected element goes onto the front.
    pub fn push_front(&mut self, element: T)
        requires
            old(self).wf(),
        ensures
            final(self).wf(),
            final(self)@ == seq![element] + old(self)@,
            old(self).spilled() ==> final(self).spilled(),
            !old(self).spilled() && old(self)@.len() < N ==> !final(self).spilled(),
            !old(self).spilled() && old(self)@.len() == N ==> final(self).spilled(),
    {
        let rejected: T = match self {
            TinyDeque::Heap(v) => {
                v.push_front(element);
                return ;
            },
            TinyDeque::Stack(s) => {
                match s.try_push_front(element) {
                    Ok(()) => {
                        return ;
                    },
                    Err(reject) => reject,
                }
            },
        };
        self.spill();
        match self {
            TinyDeque::Heap(v) => {
                v.push_front(rejected);
            },
            TinyDeque::Stack(_) => {
                proof {
                    assert(false);
                }
            },
        }
    }

    /// Pop an element from the back, or no value when empty.
    pub fn pop_back(&mut self) -> (r: Option<T>)
        requires
            old(self).wf(),
        ensures
            final(self).wf(),
            old(self).spilled() == final(self).spilled(),
            old(self)@.len() == 0 ==> r is None && final(self)@ == old(self)@,
            old(self)@.len() > 0 ==> r == Some(old(self)@.last()) && final(self)@ == old(
                self,
            )@.drop_last(),
    {
        match self {
            TinyDeque::Heap(v) => {
                let r = v.pop_back();
                proof {
                    if old(self)@.len() > 0 {
                        assert(v@ =~= old(self)@.drop_last());
                    }
                }
                r
            },
            TinyDeque::Stack(s) => s.pop_back(),
        }
    }

    /// Pop an element from the front, or no value when empty.
    pub fn pop_front(&mut self) -> (r: Option<T>)
        requires
            old(self).wf(),
        ensures
            final(self).wf(),
            old(self).spilled() == final(self).spilled(),
            old(self)@.len() == 0 ==> r is None && final(self)@ == old(self)@,
            old(self)@.len() > 0 ==> r == Some(old(self)@[0]) && final(self)@ == old(
                self,
            )@.subrange(1, old(self)@.len() as int),
    {
        match self {
            TinyDeque::Heap(v) => v.pop_front(),
            TinyDeque::Stack(s) => s.pop_front(),
        }
    }

    /// Get a reference to the element at logical index `index` (0 is the
    /// front), or no value when the index is out of range.
    pub fn get(&self, index: usize) -> (r: Option<&T>)
        requires
            self.wf(),
        ensures
            index < self@.len() ==> r is Some && r.unwrap() == self@[index as int],
            index >= self@.len() ==> r is None,
    {
        match self {
            TinyDeque::Heap(v) => {
                if index < v.len() {
                    Some(&v[index])
                } else {
                    None
                }
            },
            TinyDeque::Stack(s) => s.get(index),
        }
    }

    /// Get a mutable reference to the element at logical index `index`, or
    /// no value when the index is out of range. The deque afterwards holds
    /// whatever the caller wrote through the reference, at that index.
    pub fn get_mut(&mut self, index: usize) -> (r: Option<&mut T>)
        requires
            old(self).wf(),
        ensures
            final(self).wf(),
            old(self).spilled() == final(self).spilled(),
            index < old(self)@.len() ==> r is Some && *r.unwrap() == old(self)@[index as int]
                && final(self)@ == old(self)@.update(index as int, *final(r.unwrap())),
            index >= old(self)@.len() ==> r is None && final(self)@ == old(self)@,
    {
        match self {
            TinyDeque::Heap(v) => vec_deque_get_mut(v, index),
            TinyDeque::Stack(s) => s.get_mut(index),
        }
    }

    /// Truncate the deque to at most `len` elements, keeping exactly the
    /// first `len` logical elements. Asking for the current length or more
    /// changes nothing.
    pub fn truncate(&mut self, len: usize)
        requires
            old(self).wf(),
        ensures
            final(self).wf(),
            old(self).spilled() == final(self).spilled(),
            len <= old(self)@.len() ==> final(self)@ == old(self)@.subrange(0, len as int),
            len >= old(self)@.len() ==> final(self)@ == old(self)@,
    {
        match self {
            TinyDeque::Heap(v) => {
                v.truncate(len);
                proof {
                    if len == old(self)@.len() {
                        assert(old(self)@.subrange(0, len as int) =~= old(self)@);
                    }
                }
            },
            TinyDeque::Stack(s) => s.truncate(len),
        }
    }

    /// Remove all elements.
    pub fn clear(&mut self)
        requires
            old(self).wf(),
        ensures
            final(self).wf(),
            old(self).spilled() == final(self).spilled(),
            final(self)@ == Seq::<T>::empty(),
    {
        self.truncate(0);
        proof {
            assert(old(self)@.subrange(0, 0) =~= Seq::<T>::empty());
        }
    }

    /// The contents as an ordered pair of zero-copy slice views whose
    /// concatenation is the logical front-to-back sequence.
    pub fn as_slices(&self) -> (r: (&[T], &[T]))
        requires
            self.wf(),
        ensures
            r.0@ + r.1@ == self@,
    {
        match self {
            TinyDeque::Heap(v) => vec_deque_as_slices(v),
            TinyDeque::Stack(s) => s.as_slices(),
        }
    }

    /// The contents as an ordered pair of mutable zero-copy slice views. The
    /// concatenation of the two views is the logical front-to-back sequence,
    /// both as handed out and after the caller is done writing through them.
    pub fn as_mut_slices(&mut self) -> (r: (&mut [T], &mut [T]))
        requires
            old(self).wf(),
        ensures
            r.0@ + r.1@ == old(self)@,
            old(self).spilled() == final(self).spilled(),
            final(r.0)@.len() == r.0@.len() && final(r.1)@.len() == r.1@.len() ==> final(self).wf()
                && final(self)@ == final(r.0)@ + final(r.1)@,
    {
        match self {
            TinyDeque::Heap(v) => vec_deque_as_mut_slices(v),
            TinyDeque::Stack(s) => s.as_mut_slices(),
        }
    }

    /// An iterator over the whole deque, front to back, forwarding to the
    /// active arm.
    pub fn iter<'a>(&'a self) -> (it: Iter<'a, T, N>)
        requires
            self.wf(),
        ensures
            it.wf(),
            it@ == self@,
    {
        match self {
            TinyDeque::Heap(v) => {
                let it = Iter::Heap { deque: v, pos: 0, end: v.len() };
                proof {
                    assert(it@ =~= self@);
                }
                it
            },
            TinyDeque::Stack(s) => Iter::Stack(s.iter()),
        }
    }
}

/// An iterator over the elements in a `TinyDeque`, forwarding to the active
/// arm: double-ended, exact-length, and yielding nothing further once
/// exhausted.
pub enum Iter<'a, T, const N: usize> {
    Stack(ArrayDequeIter<'a, T, N>),
    Heap { deque: &'a VecDeque<T>, pos: usize, end: usize },
}

impl<'a, T, const N: usize> Iter<'a, T, N> {
    /// Well-formedness of whichever arm is active.
    pub closed spec fn wf(self) -> bool {
        match self {
            Iter::Stack(it) => it.wf(),
            Iter::Heap { deque, pos, end } => pos <= end <= deque@.len(),
        }
    }
}

impl<'a, T, const N: usize> View for Iter<'a, T, N> {
    type V = Seq<T>;

    closed spec fn view(&self) -> Seq<T> {
        match *self {
            Iter::Stack(it) => it@,
            Iter::Heap { deque, pos, end } => deque@.subrange(pos as int, end as int),
        }
    }
}

impl<'a, T: Default, const N: usize> Iter<'a, T, N> {
    /// Yield a reference to the next element from the front of the remaining
    /// range, or no value once the range is exhausted.
    pub fn next(&mut self) -> (r: Option<&'a T>)
        requires
            old(self).wf(),
        ensures
            final(self).wf(),
            old(self)@.len() == 0 ==> r is None && final(self)@ == old(self)@,
            old(self)@.len() > 0 ==> r is Some && r.unwrap() == old(self)@[0] && final(self)@
                == old(self)@.subrange(1, old(self)@.len() as int),
    {
        match self {
            Iter::Stack(it) => it.next(),
            Iter::Heap { deque, pos, end } => {
                if *pos == *end {
                    None
                } else {
                    let d: &'a VecDeque<T> = *deque;
                    let r = Some(&d[*pos]);
                    *pos = *pos + 1;
                    proof {
                        assert(self@ =~= old(self)@.subrange(1, old(self)@.len() as int));
                    }
                    r
                }
            },
        }
    }

    /// Yield a reference to the next element from the back of the remaining
    /// range, or no value once the range is exhausted.
    pub fn next_back(&mut self) -> (r: Option<&'a T>)
        requires
            old(self).wf(),
        ensures
            final(self).wf(),
            old(self)@.len() == 0 ==> r is None && final(self)@ == old(self)@,
            old(self)@.len() > 0 ==> r is Some && r.unwrap() == old(self)@.last()
                && final(self)@ == old(self)@.drop_last(),
    {
        match self {
            Iter::Stack(it) => it.next_back(),
            Iter::Heap { deque, pos, end } => {
                if *pos == *end {
                    None
                } else {
                    let d: &'a VecDeque<T> = *deque;
                    let e = *end - 1;
                    let r = Some(&d[e]);
                    *end = e;
                    proof {
                        assert(self@ =~= old(self)@.drop_last());
                    }
                    r
                }
            },
        }
    }

    /// The exact number of elements left: both bounds equal the remaining
    /// length.
    pub fn size_hint(&self) -> (r: (usize, Option<usize>))
        requires
            self.wf(),
        ensures
            r.0 == self@.len(),
            r.1 == Some(r.0),
    {
        match self {
            Iter::Stack(it) => it.size_hint(),
            Iter::Heap { deque: _, pos, end } => {
                let n = *end - *pos;
                (n, Some(n))
            },
        }
    }
}

} // verus!
