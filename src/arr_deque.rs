//! Fixed-capacity circular buffer that evicts its oldest element when full.

use vstd::prelude::*;

verus! {

/// The contents after appending `v` to `s` in a buffer of capacity `cap`:
/// a full buffer first drops its oldest element.
pub open spec fn overwrite_push<T>(s: Seq<T>, v: T, cap: nat) -> Seq<T> {
    if s.len() >= cap {
        s.drop_first().push(v)
    } else {
        s.push(v)
    }
}

/// The contents after appending each of `vs` in turn.
pub open spec fn overwrite_push_all<T>(s: Seq<T>, vs: Seq<T>, cap: nat) -> Seq<T>
    decreases vs.len(),
{
    if vs.len() == 0 {
        s
    } else {
        overwrite_push_all(overwrite_push(s, vs[0], cap), vs.drop_first(), cap)
    }
}

/// The last `min(cap, s.len())` elements of `s`.
pub open spec fn last_n<T>(s: Seq<T>, cap: nat) -> Seq<T> {
    if s.len() > cap {
        s.subrange(s.len() - cap, s.len() as int)
    } else {
        s
    }
}

proof fn lemma_push_all_keeps_last<T>(s: Seq<T>, vs: Seq<T>, cap: nat)
    requires
        cap > 0,
        s.len() <= cap,
    ensures
        overwrite_push_all(s, vs, cap) == last_n(s + vs, cap),
    decreases vs.len(),
{
    if vs.len() == 0 {
        assert(s + vs =~= s);
    } else {
        let s1 = overwrite_push(s, vs[0], cap);
        lemma_push_all_keeps_last(s1, vs.drop_first(), cap);
        let whole = s + vs;
        let rest = s1 + vs.drop_first();
        if s.len() == cap {
            assert(rest =~= whole.subrange(1, whole.len() as int));
        } else {
            assert(rest =~= whole);
        }
        assert(last_n(rest, cap) =~= last_n(whole, cap));
    }
}

/// Starting from an empty buffer of capacity `cap`, any run of overwriting
/// pushes leaves exactly the last `cap` values pushed (all of them when
/// fewer were pushed), oldest first.
pub proof fn lemma_overwrite_keeps_last<T>(values: Seq<T>, cap: nat)
    requires
        cap > 0,
    ensures
        overwrite_push_all(Seq::empty(), values, cap) == last_n(values, cap),
        overwrite_push_all(Seq::empty(), values, cap).len() <= cap,
{
    lemma_push_all_keeps_last(Seq::empty(), values, cap);
    assert(Seq::<T>::empty() + values =~= values);
}

/// Pushing into a full buffer evicts exactly one element: the buffer stays
/// full, holding the old contents without their oldest, then the new value.
pub proof fn lemma_full_stays_full<T>(s: Seq<T>, v: T, cap: nat)
    requires
        cap > 0,
        s.len() == cap,
    ensures
        overwrite_push(s, v, cap).len() == cap,
        overwrite_push(s, v, cap) == s.subrange(1, cap as int).push(v),
{
}

/// A circular buffer of `N` slots. `start` is the oldest occupied slot,
/// `end` the next slot to write, and `full` tells a completely full buffer
/// apart from an empty one when `start == end`. The slots are held inline,
/// so the buffer needs no heap and can live in memory that is retained
/// while the device sleeps.
pub struct ArrDeque<T, const N: usize> {
    full: bool,
    start: usize,
    end: usize,
    arr: [Option<T>; N],
}

impl<T, const N: usize> ArrDeque<T, N> {
    /// Number of occupied slots.
    pub closed spec fn count(self) -> nat {
        if self.full {
            N as nat
        } else if self.end >= self.start {
            (self.end - self.start) as nat
        } else {
            (N - self.start + self.end) as nat
        }
    }

    /// Physical slot of the `k`-th oldest element.
    pub closed spec fn slot(self, k: int) -> int {
        if self.start + k < N {
            self.start + k
        } else {
            self.start + k - N
        }
    }

    /// Distance of physical slot `i` from the oldest slot, going forward.
    pub closed spec fn offset(self, i: int) -> int {
        if i >= self.start {
            i - self.start
        } else {
            i + N - self.start
        }
    }

    /// Well-formedness: indices in range, and a slot holds a value exactly
    /// when it lies in the circular range of occupied slots.
    pub closed spec fn wf(self) -> bool {
        &&& N > 0
        &&& self.arr@.len() == N
        &&& self.start < N
        &&& self.end < N
        &&& self.full ==> self.start == self.end
        &&& forall|i: int|
            0 <= i < N ==> (#[trigger] self.arr@[i] is Some <==> self.offset(i) < self.count())
    }

    proof fn lemma_slot(self, k: int)
        requires
            self.wf(),
            0 <= k < N,
        ensures
            0 <= self.slot(k) < N,
            self.offset(self.slot(k)) == k,
    {
    }

    /// A well-formed buffer has a capacity of at least one and never holds
    /// more than its capacity.
    pub proof fn lemma_wf_bounds(self)
        requires
            self.wf(),
        ensures
            N > 0,
            self@.len() <= N,
    {
    }

    /// The capacity of the buffer.
    pub open spec fn capacity(self) -> nat {
        N as nat
    }
}

impl<T, const N: usize> View for ArrDeque<T, N> {
    type V = Seq<T>;

    /// The stored elements, oldest first.
    closed spec fn view(&self) -> Seq<T> {
        Seq::new(self.count(), |k: int| self.arr@[self.slot(k)]->Some_0)
    }
}

impl<T, const N: usize> ArrDeque<T, N> {
    /// Makes an empty buffer of capacity `N`.
    pub fn new() -> (r: Self) where T: Copy
        requires
            N > 0,
        ensures
            r.wf(),
            r@ == Seq::<T>::empty(),
    {
        let arr: [Option<T>; N] = [None; N];
        let r = ArrDeque { full: false, start: 0, end: 0, arr };
        assert(r@ =~= Seq::<T>::empty());
        r
    }

    /// Number of stored elements.
    pub fn len(&self) -> (r: usize)
        requires
            self.wf(),
        ensures
            r == self@.len(),
            r <= self.capacity(),
    {
        if self.full {
            N
        } else if self.end >= self.start {
            self.end - self.start
        } else {
            N - self.start + self.end
        }
    }

    /// Whether no element is stored.
    pub fn is_empty(&self) -> (r: bool)
        requires
            self.wf(),
        ensures
            r == (self@.len() == 0),
    {
        !self.full && self.start == self.end
    }

    /// Appends `value` as the newest element; when the buffer is full the
    /// oldest element is evicted first.
    pub fn overwriting_push_back(&mut self, value: T) where T: Copy
        requires
            old(self).wf(),
        ensures
            final(self).wf(),
            final(self)@ == overwrite_push(old(self)@, value, N as nat),
    {
        if self.full {
            let _ = self.pop_front();
            assert(self@.len() < N);
        }
        let ghost mid = *self;
        assert(!mid.full);
        let pos = self.end;
        proof {
            assert(mid.offset(pos as int) == mid.count());
        }
        self.arr[pos] = Some(value);
        if self.end < N - 1 {
            self.end = self.end + 1;
        } else {
            self.end = 0;
        }
        self.full = self.start == self.end;
        assert(self.count() == mid.count() + 1);
        assert forall|i: int| 0 <= i < N implies (#[trigger] self.arr@[i] is Some
            <==> self.offset(i) < self.count()) by {
            if i != pos {
                assert(mid.arr@[i] == self.arr@[i]);
            }
        }
        assert forall|k: int| 0 <= k < mid.count() implies self.slot(k) == mid.slot(k)
            && self.slot(k) != pos by {
            mid.lemma_slot(k);
        }
        assert(self@ =~= mid@.push(value));
    }

    /// Removes and returns the oldest element, or `None` when the buffer is
    /// empty, in which case nothing changes.
    pub fn pop_front(&mut self) -> (r: Option<T>) where T: Copy
        requires
            old(self).wf(),
        ensures
            final(self).wf(),
            old(self)@.len() == 0 ==> r is None && *final(self) == *old(self),
            old(self)@.len() > 0 ==> r == Some(old(self)@[0]) && final(self)@
                == old(self)@.drop_first(),
    {
        if self.is_empty() {
            return None;
        }
        let ghost prev = *self;
        let pos = self.start;
        proof {
            prev.lemma_slot(0);
        }
        let value = self.arr[pos];
        self.arr[pos] = None;
        if self.start < N - 1 {
            self.start = self.start + 1;
        } else {
            self.start = 0;
        }
        self.full = false;
        assert(self.count() == prev.count() - 1);
        assert forall|i: int| 0 <= i < N implies (#[trigger] self.arr@[i] is Some
            <==> self.offset(i) < self.count()) by {
            if i != pos {
                assert(prev.arr@[i] == self.arr@[i]);
            }
        }
        assert forall|k: int| 0 <= k < self.count() implies self.slot(k) == prev.slot(k + 1)
            by {
            prev.lemma_slot(k + 1);
        }
        assert(self@ =~= prev@.drop_first());
        value
    }

    /// A read-only walk over the stored elements, oldest first.
    pub fn iter(&self) -> (r: Iter<'_, T, N>)
        requires
            self.wf(),
        ensures
            r.wf(),
            r.remaining() == self@,
    {
        Iter::new(self)
    }
}

/// Walks the elements of an [`ArrDeque`] from oldest to newest. `first` is
/// set until the first element has been handed out, which tells a walk
/// over a full buffer that has not begun from one that has ended.
pub struct Iter<'a, T, const N: usize> {
    deque: &'a ArrDeque<T, N>,
    first: bool,
    position: usize,
}

impl<'a, T, const N: usize> Iter<'a, T, N> {
    /// How many elements have been handed out so far.
    pub closed spec fn consumed(self) -> int {
        if self.first {
            0
        } else if self.deque.offset(self.position as int) == 0 {
            self.deque.count() as int
        } else {
            self.deque.offset(self.position as int)
        }
    }

    pub closed spec fn wf(self) -> bool {
        &&& self.deque.wf()
        &&& self.position < N
        &&& self.first ==> self.position == self.deque.start && self.deque.count() > 0
        &&& !self.first ==> self.deque.offset(self.position as int) <= self.deque.count()
        &&& !self.first && self.deque.offset(self.position as int) == 0 ==> (
        self.deque.count() == 0 || self.deque.count() == N)
    }

    /// The elements still to come, in order.
    pub closed spec fn remaining(self) -> Seq<T> {
        self.deque@.subrange(self.consumed(), self.deque.count() as int)
    }

    fn new(deque: &'a ArrDeque<T, N>) -> (r: Self)
        requires
            deque.wf(),
        ensures
            r.wf(),
            r.remaining() == deque@,
    {
        let r = Iter { deque, first: !deque.is_empty(), position: deque.start };
        assert(r.remaining() =~= deque@);
        r
    }

    /// Hands out the next element, or `None` once all have been seen.
    pub fn next(&mut self) -> (r: Option<&'a T>)
        requires
            old(self).wf(),
        ensures
            final(self).wf(),
            old(self).remaining().len() == 0 ==> r is None && final(self).remaining()
                == old(self).remaining(),
            old(self).remaining().len() > 0 ==> r == Some(&old(self).remaining()[0])
                && final(self).remaining() == old(self).remaining().drop_first(),
    {
        let pos = self.position;
        if !self.first && pos == self.deque.end {
            return None;
        }
        let ghost prev = *self;
        let ghost k = prev.consumed();
        proof {
            self.deque.lemma_slot(k);
        }
        self.first = false;
        if self.position < N - 1 {
            self.position = self.position + 1;
        } else {
            self.position = 0;
        }
        proof {
            if k + 1 < N {
                self.deque.lemma_slot(k + 1);
            }
        }
        assert(self.remaining() =~= prev.remaining().drop_first());
        self.deque.arr[pos].as_ref()
    }
}

} // verus!
