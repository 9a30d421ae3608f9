//! A first-in first-out queue of values that reports its least or greatest
//! element in constant time.
//!
//! The queue is kept as two stacks of `(value, running extremum)` pairs. New
//! values go on the push side; values leave from the pop side. When the pop
//! side runs dry, the push side is moved onto it in one go, which reverses it
//! so that the oldest value is on top. Each entry's second component is the
//! extremum of its own stack from the bottom up to that entry, so the two top
//! entries together give the extremum of the whole queue.
use vstd::prelude::*;
use crate::order::{le, lemma_le_refl, lemma_le_total, total_order};

verus! {

/// Which end of the ordering a queue tracks.
#[derive(PartialEq, Eq, Structural, Clone, Copy, Debug)]
pub enum Extreme {
    Least,
    Greatest,
}

/// `a` is at least as far toward the `d` end of the ordering as `b`.
pub open spec fn as_extreme<T: PartialOrd>(d: Extreme, a: T, b: T) -> bool {
    match d {
        Extreme::Least => le(a, b),
        Extreme::Greatest => le(b, a),
    }
}

/// `m` is an extremum of `s` toward `d`: it occurs in `s`, and it is at least
/// as extreme as every element of `s`.
pub open spec fn is_extremum<T: PartialOrd>(d: Extreme, s: Seq<T>, m: T) -> bool {
    &&& s.contains(m)
    &&& forall|i: int| 0 <= i < s.len() ==> as_extreme(d, m, #[trigger] s[i])
}

/// What taking the front of a window gives: the value that left, if any, and
/// the window after.
pub open spec fn window_pop<T>(w: Seq<T>) -> (Option<T>, Seq<T>) {
    if w.len() == 0 {
        (None, w)
    } else {
        (Some(w[0]), w.drop_first())
    }
}

proof fn lemma_extreme_refl<T: PartialOrd>(d: Extreme, a: T)
    requires
        total_order::<T>(),
    ensures
        as_extreme(d, a, a),
{
    lemma_le_refl(a);
}

proof fn lemma_extreme_total<T: PartialOrd>(d: Extreme, a: T, b: T)
    requires
        total_order::<T>(),
    ensures
        as_extreme(d, a, b) || as_extreme(d, b, a),
{
    lemma_le_total(a, b);
}

proof fn lemma_extreme_trans<T: PartialOrd>(d: Extreme, a: T, b: T, c: T)
    requires
        total_order::<T>(),
        as_extreme(d, a, b),
        as_extreme(d, b, c),
    ensures
        as_extreme(d, a, c),
{
    match d {
        Extreme::Least => assert(le(a, b) && le(b, c)),
        Extreme::Greatest => assert(le(c, b) && le(b, a)),
    }
}

/// Entry `i` of stack `s` summarises the entries below it: its second
/// component is at least as extreme as its own value and as the summary below,
/// and it is one of those two.
spec fn entry_ok<T: PartialOrd>(d: Extreme, s: Seq<(T, T)>, i: int) -> bool {
    &&& as_extreme(d, s[i].1, s[i].0)
    &&& i > 0 ==> as_extreme(d, s[i].1, s[i - 1].1)
    &&& (s[i].1 == s[i].0 || (i > 0 && s[i].1 == s[i - 1].1))
}

spec fn running<T: PartialOrd>(d: Extreme, s: Seq<(T, T)>) -> bool {
    forall|i: int| 0 <= i < s.len() ==> #[trigger] entry_ok(d, s, i)
}

/// The summary at entry `k` is an extremum of the values at entries `0..=k`;
/// the result is an entry whose value it is.
proof fn lemma_running_summary<T: PartialOrd>(d: Extreme, s: Seq<(T, T)>, k: int) -> (j: int)
    requires
        total_order::<T>(),
        running(d, s),
        0 <= k < s.len(),
    ensures
        0 <= j <= k,
        s[j].0 == s[k].1,
        forall|m: int| 0 <= m <= k ==> as_extreme(d, s[k].1, #[trigger] s[m].0),
    decreases k,
{
    assert(entry_ok(d, s, k));
    if k == 0 {
        0
    } else {
        let j0 = lemma_running_summary(d, s, k - 1);
        assert forall|m: int| 0 <= m <= k implies as_extreme(d, s[k].1, #[trigger] s[m].0) by {
            if m < k {
                lemma_extreme_trans(d, s[k].1, s[k - 1].1, s[m].0);
            }
        }
        if s[k].1 == s[k].0 {
            k
        } else {
            j0
        }
    }
}

/// A queue that tracks its extremum toward one end of the ordering.
pub struct ExtremumQueue<T> {
    push_stack: Vec<(T, T)>,
    pop_stack: Vec<(T, T)>,
    dir: Extreme,
    /// Operations performed so far.
    ops: Ghost<nat>,
    /// Elementary steps taken so far: one for each comparison of values and
    /// one for each entry stored on or taken off a stack.
    work: Ghost<nat>,
}

impl<T> View for ExtremumQueue<T> {
    type V = Seq<T>;

    /// The values held, oldest first: the pop side from its top down, then
    /// the push side from its bottom up.
    closed spec fn view(&self) -> Seq<T> {
        let q = self.pop_stack@;
        let p = self.push_stack@;
        Seq::new(
            q.len() + p.len(),
            |i: int|
                if i < q.len() {
                    q[q.len() - 1 - i].0
                } else {
                    p[i - q.len()].0
                },
        )
    }
}

impl<T: Copy + PartialOrd> ExtremumQueue<T> {
    /// The end of the ordering that this queue tracks.
    pub closed spec fn dir(&self) -> Extreme {
        self.dir
    }

    /// How many operations (`push` and `pop`) this queue has performed.
    pub closed spec fn ops(&self) -> nat {
        self.ops@
    }

    /// How many elementary steps (comparisons of values, entries stored or
    /// removed) this queue has taken.
    pub closed spec fn work(&self) -> nat {
        self.work@
    }

    /// The queue's internal invariant.
    pub closed spec fn wf(&self) -> bool {
        &&& running(self.dir, self.push_stack@)
        &&& running(self.dir, self.pop_stack@)
        &&& self.push_stack@.len() + self.pop_stack@.len() <= usize::MAX
        &&& self.work@ + 2 * self.push_stack@.len() <= 4 * self.ops@
    }

    /// Creates an empty queue that tracks the extremum toward `dir`.
    pub fn new(dir: Extreme) -> (r: Self)
        ensures
            r.wf(),
            r@ == Seq::<T>::empty(),
            r.dir() == dir,
            r.ops() == 0,
            r.work() == 0,
    {
        let r = ExtremumQueue {
            push_stack: Vec::new(),
            pop_stack: Vec::new(),
            dir,
            ops: Ghost(0),
            work: Ghost(0),
        };
        assert(r@ =~= Seq::<T>::empty());
        r
    }

    /// Creates an empty queue that tracks the extremum toward `dir`, with room
    /// for `capacity` values on each stack before it reallocates.
    pub fn with_capacity(dir: Extreme, capacity: usize) -> (r: Self)
        ensures
            r.wf(),
            r@ == Seq::<T>::empty(),
            r.dir() == dir,
            r.ops() == 0,
            r.work() == 0,
    {
        let r = ExtremumQueue {
            push_stack: Vec::with_capacity(capacity),
            pop_stack: Vec::with_capacity(capacity),
            dir,
            ops: Ghost(0),
            work: Ghost(0),
        };
        assert(r@ =~= Seq::<T>::empty());
        r
    }

    /// Whether `a` is at least as extreme as `b` toward this queue's end.
    fn at_least_as_extreme(&self, a: &T, b: &T) -> (r: bool)
        requires
            total_order::<T>(),
        ensures
            r == as_extreme(self.dir, *a, *b),
    {
        match self.dir {
            Extreme::Least => a.le(b),
            Extreme::Greatest => b.le(a),
        }
    }

    /// The entry that `val` makes on top of `stack`: the value, with the
    /// extremum of it and the summary on top of `stack`.
    fn entry_on(&self, stack: &Vec<(T, T)>, val: T) -> (r: (T, T))
        requires
            total_order::<T>(),
            running(self.dir, stack@),
        ensures
            r.0 == val,
            running(self.dir, stack@.push(r)),
    {
        let n = stack.len();
        let r = if n == 0 {
            (val, val)
        } else {
            let top = stack[n - 1].1;
            if self.at_least_as_extreme(&val, &top) {
                (val, val)
            } else {
                (val, top)
            }
        };
        proof {
            let s = stack@.push(r);
            lemma_extreme_refl(self.dir, val);
            if n > 0 {
                lemma_extreme_total(self.dir, val, stack@[n - 1].1);
                if r.1 == val {
                    assert(as_extreme(self.dir, val, stack@[n - 1].1));
                }
            }
            assert forall|i: int| 0 <= i < s.len() implies #[trigger] entry_ok(self.dir, s, i) by {
                if i < n {
                    assert(entry_ok(self.dir, stack@, i));
                }
            }
        }
        r
    }

    /// The extremum of the values held toward this queue's end, or `None`
    /// when the queue is empty. When the two stacks' summaries are equally
    /// extreme, either may be returned.
    pub fn extremum(&self) -> (r: Option<&T>)
        requires
            self.wf(),
            total_order::<T>(),
        ensures
            r is None <==> self@.len() == 0,
            r matches Some(m) ==> is_extremum(self.dir(), self@, *m),
    {
        let np = self.push_stack.len();
        let nq = self.pop_stack.len();
        proof {
            self.lemma_tops();
        }
        if np == 0 {
            if nq == 0 {
                None
            } else {
                Some(&self.pop_stack[nq - 1].1)
            }
        } else if nq == 0 {
            Some(&self.push_stack[np - 1].1)
        } else {
            let a = &self.push_stack[np - 1].1;
            let b = &self.pop_stack[nq - 1].1;
            if self.at_least_as_extreme(b, a) {
                proof {
                    assert forall|i: int| 0 <= i < self@.len() implies as_extreme(
                        self.dir,
                        *b,
                        #[trigger] self@[i],
                    ) by {
                        if i >= nq {
                            lemma_extreme_trans(self.dir, *b, *a, self@[i]);
                        }
                    }
                }
                Some(b)
            } else {
                proof {
                    lemma_extreme_total(self.dir, *a, *b);
                    assert forall|i: int| 0 <= i < self@.len() implies as_extreme(
                        self.dir,
                        *a,
                        #[trigger] self@[i],
                    ) by {
                        if i < nq {
                            lemma_extreme_trans(self.dir, *a, *b, self@[i]);
                        }
                    }
                }
                Some(a)
            }
        }
    }

    /// Each non-empty stack's top summary is one of the values held and is at
    /// least as extreme as every value on its own stack.
    proof fn lemma_tops(&self)
        requires
            self.wf(),
            total_order::<T>(),
        ensures
            self.push_stack@.len() > 0 ==> {
                let p = self.push_stack@;
                let t = p[p.len() - 1].1;
                &&& self@.contains(t)
                &&& forall|i: int|
                    self.pop_stack@.len() <= i < self@.len() ==> as_extreme(
                        self.dir,
                        t,
                        #[trigger] self@[i],
                    )
            },
            self.pop_stack@.len() > 0 ==> {
                let q = self.pop_stack@;
                let t = q[q.len() - 1].1;
                &&& self@.contains(t)
                &&& forall|i: int| 0 <= i < q.len() ==> as_extreme(self.dir, t, #[trigger] self@[i])
            },
    {
        let p = self.push_stack@;
        let q = self.pop_stack@;
        if p.len() > 0 {
            let j = lemma_running_summary(self.dir, p, p.len() - 1);
            assert(self@[q.len() + j] == p[j].0);
            assert forall|i: int| q.len() <= i < self@.len() implies as_extreme(
                self.dir,
                p[p.len() - 1].1,
                #[trigger] self@[i],
            ) by {
                assert(self@[i] == p[i - q.len()].0);
            }
        }
        if q.len() > 0 {
            let j = lemma_running_summary(self.dir, q, q.len() - 1);
            assert(self@[q.len() - 1 - j] == q[j].0);
            assert forall|i: int| 0 <= i < q.len() implies as_extreme(
                self.dir,
                q[q.len() - 1].1,
                #[trigger] self@[i],
            ) by {
                assert(self@[i] == q[q.len() - 1 - i].0);
            }
        }
    }

    /// Adds `val` at the back of the queue.
    pub fn push(&mut self, val: T)
        requires
            old(self).wf(),
            total_order::<T>(),
            old(self)@.len() < usize::MAX,
        ensures
            final(self).wf(),
            final(self)@ == old(self)@.push(val),
            final(self).dir() == old(self).dir(),
            final(self).ops() == old(self).ops() + 1,
            final(self).work() <= 4 * final(self).ops(),
    {
        let entry = self.entry_on(&self.push_stack, val);
        self.push_stack.push(entry);
        proof {
            // At most one comparison, and one entry stored.
            self.work = Ghost(self.work@ + 2);
            self.ops = Ghost(self.ops@ + 1);
            assert(self@ =~= old(self)@.push(val));
        }
    }

    /// Removes and returns the value at the front of the queue, or returns
    /// `None` and changes nothing when the queue is empty.
    pub fn pop(&mut self) -> (r: Option<T>)
        requires
            old(self).wf(),
            total_order::<T>(),
        ensures
            final(self).wf(),
            (r, final(self)@) == window_pop(old(self)@),
            final(self).dir() == old(self).dir(),
            final(self).ops() == old(self).ops() + 1,
            final(self).work() <= 4 * final(self).ops(),
    {
        proof {
            self.ops = Ghost(self.ops@ + 1);
        }
        if self.pop_stack.len() == 0 {
            let ghost w = self@;
            let ghost p0 = self.push_stack@;
            let ghost n = p0.len();
            let ghost budget = self.work@ + 2 * n;
            while self.push_stack.len() > 0
                invariant
                    total_order::<T>(),
                    self.dir == old(self).dir,
                    self.ops == old(self).ops@ + 1,
                    n == w.len(),
                    n == p0.len(),
                    forall|i: int| 0 <= i < n ==> #[trigger] w[i] == p0[i].0,
                    self.push_stack@.len() + self.pop_stack@.len() == n,
                    self.push_stack@ == p0.take(self.push_stack@.len() as int),
                    forall|m: int|
                        0 <= m < self.pop_stack@.len() ==> #[trigger] self.pop_stack@[m].0 == p0[n
                            - 1 - m].0,
                    running(self.dir, self.push_stack@),
                    running(self.dir, self.pop_stack@),
                    self.work@ + 2 * self.push_stack@.len() == budget,
                    n <= usize::MAX,
                decreases self.push_stack@.len(),
            {
                let ghost before = self.push_stack@;
                let top = self.push_stack.pop();
                match top {
                    Some(e) => {
                        proof {
                            let k = before.len() - 1;
                            assert(e == before[k]);
                            assert(before[k] == p0[k]);
                            assert(self.push_stack@ =~= p0.take(k));
                        }
                        let entry = self.entry_on(&self.pop_stack, e.0);
                        self.pop_stack.push(entry);
                        proof {
                            // At most one comparison, and one entry moved.
                            self.work = Ghost(self.work@ + 2);
                            assert forall|i: int| 0 <= i < self.push_stack@.len() implies #[trigger] entry_ok(
                                self.dir,
                                self.push_stack@,
                                i,
                            ) by {
                                assert(entry_ok(self.dir, before, i));
                            }
                        }
                    },
                    None => {},
                }
            }
            proof {
                assert(self@ =~= w);
            }
        }
        let ghost w = self@;
        let ghost q = self.pop_stack@;
        let out = self.pop_stack.pop();
        match out {
            Some(e) => {
                proof {
                    // One entry removed.
                    self.work = Ghost(self.work@ + 1);
                    assert(w[0] == q[q.len() - 1].0);
                    assert(self@ =~= w.drop_first());
                    assert forall|i: int| 0 <= i < self.pop_stack@.len() implies #[trigger] entry_ok(
                        self.dir,
                        self.pop_stack@,
                        i,
                    ) by {
                        assert(entry_ok(self.dir, q, i));
                    }
                }
                Some(e.0)
            },
            None => {
                proof {
                    assert(w.len() == 0);
                }
                None
            },
        }
    }

    /// The number of values held.
    pub fn len(&self) -> (r: usize)
        requires
            self.wf(),
        ensures
            r == self@.len(),
    {
        self.push_stack.len() + self.pop_stack.len()
    }
}

} // verus!
