//! A fixed-capacity history that keeps the latest values, oldest first.

use std::collections::VecDeque;
use vstd::prelude::*;

verus! {

/// What a history of capacity `cap` holds after `v` is pushed onto `s`: the
/// oldest value leaves once `cap` values are held; nothing is kept at all
/// with a capacity of zero.
pub open spec fn after_push<T>(s: Seq<T>, cap: nat, v: T) -> Seq<T> {
    if cap == 0 {
        s
    } else if s.len() >= cap {
        s.drop_first().push(v)
    } else {
        s.push(v)
    }
}

/// What a new history of capacity `cap` holds after `vals` are pushed in order.
pub open spec fn after_pushes<T>(cap: nat, vals: Seq<T>) -> Seq<T>
    decreases vals.len(),
{
    if vals.len() == 0 {
        Seq::empty()
    } else {
        after_push(after_pushes(cap, vals.drop_last()), cap, vals.last())
    }
}

/// The last `k` of `vals` (all of them where there are fewer), in order.
pub open spec fn latest<T>(vals: Seq<T>, k: nat) -> Seq<T> {
    if vals.len() <= k {
        vals
    } else {
        vals.subrange(vals.len() - k, vals.len() as int)
    }
}

/// A history of capacity `k` holds exactly the last `k` values pushed into it,
/// in the order they were pushed; after `k` pushes or more, exactly `k` values.
pub proof fn lemma_history_keeps_latest<T>(k: nat, vals: Seq<T>)
    ensures
        after_pushes(k, vals) == latest(vals, k),
        vals.len() >= k ==> after_pushes(k, vals).len() == k,
    decreases vals.len(),
{
    if vals.len() > 0 {
        let init = vals.drop_last();
        lemma_history_keeps_latest(k, init);
        if k > 0 {
            if init.len() >= k {
                assert(latest(init, k).drop_first().push(vals.last()) =~= latest(vals, k));
            } else {
                assert(latest(init, k).push(vals.last()) =~= latest(vals, k));
            }
        } else {
            assert(latest(vals, k) =~= Seq::<T>::empty());
            assert(latest(init, k) =~= Seq::<T>::empty());
        }
    }
}

pub struct RingBuffer<T> {
    cap: usize,
    data: VecDeque<T>,
}

impl<T> View for RingBuffer<T> {
    type V = Seq<T>;

    closed spec fn view(&self) -> Seq<T> {
        self.data@
    }
}

impl<T: Copy> RingBuffer<T> {
    pub closed spec fn capacity(&self) -> nat {
        self.cap as nat
    }

    /// Never more values than the capacity.
    pub closed spec fn wf(&self) -> bool {
        self.data@.len() <= self.cap
    }

    pub fn new(cap: usize) -> (r: Self)
        ensures
            r.wf(),
            r@ == Seq::<T>::empty(),
            r.capacity() == cap,
    {
        RingBuffer { cap, data: VecDeque::with_capacity(cap) }
    }

    /// Appends `value`, first dropping the oldest value where the history is full.
    pub fn push(&mut self, value: T)
        requires
            old(self).wf(),
        ensures
            final(self).wf(),
            final(self).capacity() == old(self).capacity(),
            final(self)@ == after_push(old(self)@, old(self).capacity(), value),
    {
        if self.cap == 0 {
            return;
        }
        if self.data.len() >= self.cap {
            self.data.pop_front();
        }
        self.data.push_back(value);
    }

    /// The values held, oldest first, as a copy.
    pub fn snapshot(&self) -> (r: Vec<T>)
        ensures
            r@ == self@,
    {
        let mut r: Vec<T> = Vec::new();
        let mut i: usize = 0;
        while i < self.data.len()
            invariant
                i <= self.data@.len(),
                r@ == self.data@.subrange(0, i as int),
            decreases self.data@.len() - i,
        {
            let v: T = self.data[i];
            r.push(v);
            i = i + 1;
            assert(r@ =~= self.data@.subrange(0, i as int));
        }
        assert(self.data@.subrange(0, i as int) =~= self.data@);
        r
    }

    pub fn len(&self) -> (r: usize)
        ensures
            r == self@.len(),
    {
        self.data.len()
    }
}

} // verus!
