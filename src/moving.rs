//! The two trackers: one for the minimum of a window, one for its maximum.
use vstd::prelude::*;
use crate::order::total_order;
use crate::queue::{is_extremum, window_pop, Extreme, ExtremumQueue};

verus! {

/// `m` is a minimum of `s`: it occurs in `s` and no element of `s` is smaller.
pub open spec fn is_min<T: PartialOrd>(s: Seq<T>, m: T) -> bool {
    is_extremum(Extreme::Least, s, m)
}

/// `m` is a maximum of `s`: it occurs in `s` and no element of `s` is greater.
pub open spec fn is_max<T: PartialOrd>(s: Seq<T>, m: T) -> bool {
    is_extremum(Extreme::Greatest, s, m)
}

/// `MovingMin` gives O(1) access to the minimum of a sliding window.
pub struct MovingMin<T> {
    queue: ExtremumQueue<T>,
}

impl<T> View for MovingMin<T> {
    type V = Seq<T>;

    /// The values in the window, oldest first.
    closed spec fn view(&self) -> Seq<T> {
        self.queue@
    }
}

impl<T: Copy + PartialOrd> MovingMin<T> {
    /// The window's internal invariant.
    pub closed spec fn wf(&self) -> bool {
        self.queue.wf() && self.queue.dir() == Extreme::Least
    }

    /// How many `push` and `pop` calls this window has served.
    pub closed spec fn ops(&self) -> nat {
        self.queue.ops()
    }

    /// How many elementary steps (comparisons of values, entries stored or
    /// removed) this window has taken.
    pub closed spec fn work(&self) -> nat {
        self.queue.work()
    }

    /// Creates a new `MovingMin` to keep track of the minimum in a sliding
    /// window.
    pub fn new() -> (r: Self)
        ensures
            r.wf(),
            r@ == Seq::<T>::empty(),
            r.ops() == 0,
            r.work() == 0,
    {
        MovingMin { queue: ExtremumQueue::new(Extreme::Least) }
    }

    /// Creates a new `MovingMin` to keep track of the minimum in a sliding
    /// window with `capacity` allocated slots.
    pub fn with_capacity(capacity: usize) -> (r: Self)
        ensures
            r.wf(),
            r@ == Seq::<T>::empty(),
            r.ops() == 0,
            r.work() == 0,
    {
        MovingMin { queue: ExtremumQueue::with_capacity(Extreme::Least, capacity) }
    }

    /// Returns the minimum of the sliding window or `None` if the window is
    /// empty.
    pub fn min(&self) -> (r: Option<&T>)
        requires
            self.wf(),
            total_order::<T>(),
        ensures
            r is None <==> self@.len() == 0,
            r matches Some(m) ==> is_min(self@, *m),
    {
        self.queue.extremum()
    }

    /// Pushes a new element into the sliding window.
    pub fn push(&mut self, val: T)
        requires
            old(self).wf(),
            total_order::<T>(),
            old(self)@.len() < usize::MAX,
        ensures
            final(self).wf(),
            final(self)@ == old(self)@.push(val),
            final(self).ops() == old(self).ops() + 1,
            final(self).work() <= 4 * final(self).ops(),
    {
        self.queue.push(val);
    }

    /// Removes and returns the oldest value of the sliding window, or `None`
    /// if the window is empty.
    pub fn pop(&mut self) -> (r: Option<T>)
        requires
            old(self).wf(),
            total_order::<T>(),
        ensures
            final(self).wf(),
            (r, final(self)@) == window_pop(old(self)@),
            final(self).ops() == old(self).ops() + 1,
            final(self).work() <= 4 * final(self).ops(),
    {
        self.queue.pop()
    }

    /// Returns the number of elements stored in the sliding window.
    pub fn len(&self) -> (r: usize)
        requires
            self.wf(),
        ensures
            r == self@.len(),
    {
        self.queue.len()
    }
}

/// `MovingMax` gives O(1) access to the maximum of a sliding window.
pub struct MovingMax<T> {
    queue: ExtremumQueue<T>,
}

impl<T> View for MovingMax<T> {
    type V = Seq<T>;

    /// The values in the window, oldest first.
    closed spec fn view(&self) -> Seq<T> {
        self.queue@
    }
}

impl<T: Copy + PartialOrd> MovingMax<T> {
    /// The window's internal invariant.
    pub closed spec fn wf(&self) -> bool {
        self.queue.wf() && self.queue.dir() == Extreme::Greatest
    }

    /// How many `push` and `pop` calls this window has served.
    pub closed spec fn ops(&self) -> nat {
        self.queue.ops()
    }

    /// How many elementary steps (comparisons of values, entries stored or
    /// removed) this window has taken.
    pub closed spec fn work(&self) -> nat {
        self.queue.work()
    }

    /// Creates a new `MovingMax` to keep track of the maximum in a sliding
    /// window.
    pub fn new() -> (r: Self)
        ensures
            r.wf(),
            r@ == Seq::<T>::empty(),
            r.ops() == 0,
            r.work() == 0,
    {
        MovingMax { queue: ExtremumQueue::new(Extreme::Greatest) }
    }

    /// Creates a new `MovingMax` to keep track of the maximum in a sliding
    /// window with `capacity` allocated slots.
    pub fn with_capacity(capacity: usize) -> (r: Self)
        ensures
            r.wf(),
            r@ == Seq::<T>::empty(),
            r.ops() == 0,
            r.work() == 0,
    {
        MovingMax { queue: ExtremumQueue::with_capacity(Extreme::Greatest, capacity) }
    }

    /// Returns the maximum of the sliding window or `None` if the window is
    /// empty.
    pub fn max(&self) -> (r: Option<&T>)
        requires
            self.wf(),
            total_order::<T>(),
        ensures
            r is None <==> self@.len() == 0,
            r matches Some(m) ==> is_max(self@, *m),
    {
        self.queue.extremum()
    }

    /// Pushes a new element into the sliding window.
    pub fn push(&mut self, val: T)
        requires
            old(self).wf(),
            total_order::<T>(),
            old(self)@.len() < usize::MAX,
        ensures
            final(self).wf(),
            final(self)@ == old(self)@.push(val),
            final(self).ops() == old(self).ops() + 1,
            final(self).work() <= 4 * final(self).ops(),
    {
        self.queue.push(val);
    }

    /// Removes and returns the oldest value of the sliding window, or `None`
    /// if the window is empty.
    pub fn pop(&mut self) -> (r: Option<T>)
        requires
            old(self).wf(),
            total_order::<T>(),
        ensures
            final(self).wf(),
            (r, final(self)@) == window_pop(old(self)@),
            final(self).ops() == old(self).ops() + 1,
            final(self).work() <= 4 * final(self).ops(),
    {
        self.queue.pop()
    }

    /// Returns the number of elements stored in the sliding window.
    pub fn len(&self) -> (r: usize)
        requires
            self.wf(),
        ensures
            r == self@.len(),
    {
        self.queue.len()
    }
}

} // verus!
