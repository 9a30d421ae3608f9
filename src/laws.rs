//! Properties of the window that span several operations, stated over the
//! model that the operations' contracts use: a window is the sequence of the
//! values it holds, oldest first; `push` appends to it and `pop` is
//! `window_pop`.
use vstd::prelude::*;
use crate::queue::window_pop;

verus! {

/// One operation on a window.
pub enum WindowOp<T> {
    Push(T),
    Pop,
}

/// The window after `w` has had each value of `vals` pushed, in order.
pub open spec fn push_all<T>(w: Seq<T>, vals: Seq<T>) -> Seq<T>
    decreases vals.len(),
{
    if vals.len() == 0 {
        w
    } else {
        push_all(w.push(vals[0]), vals.drop_first())
    }
}

/// What `k` successive pops of window `w` return, in order.
pub open spec fn pop_results<T>(w: Seq<T>, k: nat) -> Seq<Option<T>>
    decreases k,
{
    if k == 0 {
        Seq::empty()
    } else {
        let (r, rest) = window_pop(w);
        seq![r] + pop_results(rest, (k - 1) as nat)
    }
}

/// The window after the operations `ops` are applied to `w`, in order.
pub open spec fn run<T>(w: Seq<T>, ops: Seq<WindowOp<T>>) -> Seq<T>
    decreases ops.len(),
{
    if ops.len() == 0 {
        w
    } else {
        let next = match ops[0] {
            WindowOp::Push(v) => w.push(v),
            WindowOp::Pop => window_pop(w).1,
        };
        run(next, ops.drop_first())
    }
}

/// How many of `ops` are pushes.
pub open spec fn push_count<T>(ops: Seq<WindowOp<T>>) -> nat
    decreases ops.len(),
{
    if ops.len() == 0 {
        0
    } else {
        (if ops[0] is Push { 1nat } else { 0nat }) + push_count(ops.drop_first())
    }
}

/// How many of `ops`, applied to `w` in order, are pops that return a value.
pub open spec fn successful_pops<T>(w: Seq<T>, ops: Seq<WindowOp<T>>) -> nat
    decreases ops.len(),
{
    if ops.len() == 0 {
        0
    } else {
        match ops[0] {
            WindowOp::Push(v) => successful_pops(w.push(v), ops.drop_first()),
            WindowOp::Pop => {
                let (r, rest) = window_pop(w);
                (if r is Some { 1nat } else { 0nat }) + successful_pops(rest, ops.drop_first())
            },
        }
    }
}

proof fn lemma_push_all<T>(w: Seq<T>, vals: Seq<T>)
    ensures
        push_all(w, vals) == w + vals,
    decreases vals.len(),
{
    if vals.len() > 0 {
        lemma_push_all(w.push(vals[0]), vals.drop_first());
        assert(w.push(vals[0]) + vals.drop_first() =~= w + vals);
    }
}

proof fn lemma_pop_results<T>(w: Seq<T>)
    ensures
        pop_results(w, w.len()) == w.map_values(|v: T| Some(v)),
    decreases w.len(),
{
    if w.len() > 0 {
        lemma_pop_results(w.drop_first());
        assert(pop_results(w, w.len()) =~= w.map_values(|v: T| Some(v)));
    }
}

/// Pops with no pushes between them return the values in the order in which
/// they were pushed, oldest first; after that the window is empty and a
/// further pop returns nothing.
pub proof fn lemma_pops_keep_push_order<T>(vals: Seq<T>)
    ensures
        pop_results(push_all(Seq::empty(), vals), vals.len()) == vals.map_values(
            |v: T| Some(v),
        ),
        pop_results(push_all(Seq::empty(), vals), vals.len() + 1) == vals.map_values(
            |v: T| Some(v),
        ).push(None),
{
    lemma_push_all(Seq::empty(), vals);
    assert(Seq::<T>::empty() + vals =~= vals);
    lemma_pop_results(vals);
    lemma_pop_results_then_empty(vals);
}

proof fn lemma_pop_results_then_empty<T>(w: Seq<T>)
    ensures
        pop_results(w, w.len() + 1) == pop_results(w, w.len()).push(None),
    decreases w.len(),
{
    if w.len() == 0 {
        assert(window_pop(w) == (None::<T>, w));
        assert(pop_results(w, 0) == Seq::<Option<T>>::empty());
        assert(pop_results(w, 1) == seq![None::<T>] + pop_results(w, 0));
        assert(pop_results(w, 1) =~= Seq::<Option<T>>::empty().push(None));
    } else {
        lemma_pop_results_then_empty(w.drop_first());
        let a = pop_results(w.drop_first(), w.drop_first().len());
        assert(seq![Some(w[0])] + a.push(None) =~= (seq![Some(w[0])] + a).push(None));
    }
}

/// An empty window gives nothing to pop; a window that had one value pushed
/// gives that value back and is empty again.
pub proof fn lemma_empty_window_signal<T>(v: T)
    ensures
        window_pop(Seq::<T>::empty()) == (None::<T>, Seq::<T>::empty()),
        window_pop(Seq::<T>::empty().push(v)) == (Some(v), Seq::<T>::empty()),
{
    assert(Seq::<T>::empty().push(v).drop_first() =~= Seq::<T>::empty());
}

/// After any run of operations from an empty window, the window holds as many
/// values as there were pushes, less the pops that returned a value.
pub proof fn lemma_size_is_pushes_less_pops<T>(ops: Seq<WindowOp<T>>)
    ensures
        run(Seq::empty(), ops).len() == push_count(ops) - successful_pops(Seq::empty(), ops),
{
    lemma_size_from(Seq::empty(), ops);
}

proof fn lemma_size_from<T>(w: Seq<T>, ops: Seq<WindowOp<T>>)
    ensures
        run(w, ops).len() == w.len() + push_count(ops) - successful_pops(w, ops),
    decreases ops.len(),
{
    if ops.len() > 0 {
        match ops[0] {
            WindowOp::Push(v) => lemma_size_from(w.push(v), ops.drop_first()),
            WindowOp::Pop => lemma_size_from(window_pop(w).1, ops.drop_first()),
        }
    }
}

} // verus!
