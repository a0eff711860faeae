use vstd::prelude::*;

verus! {

/// The elements of `s` after the first `n` of them (empty once `n` reaches the end).
pub open spec fn after<T>(s: Seq<T>, n: int) -> Seq<T> {
    if n >= s.len() {
        Seq::empty()
    } else if n <= 0 {
        s
    } else {
        s.subrange(n, s.len() as int)
    }
}

/// A lazy, single-pass, pull-based sequence.
///
/// `rest()` is what the sequence will still produce, in order. `hint()` is the
/// size estimate reported by `size_hint`: a lower bound and an optional upper
/// bound, each adapter saying how it computes them.
pub trait Source: Sized {
    type Item;

    /// The invariant that the sequence keeps from one pull to the next.
    spec fn wf(&self) -> bool;

    /// The elements still to come, in the order they will be pulled.
    spec fn rest(&self) -> Seq<Self::Item>;

    /// The `(lower, upper)` estimate of the remaining count; `None` is an unknown upper bound.
    spec fn hint(&self) -> (usize, Option<usize>);

    /// Pulls the next element, or `None` once exhausted; an exhausted
    /// sequence stays exhausted.
    fn next(&mut self) -> (r: Option<Self::Item>)
        requires
            old(self).wf(),
        ensures
            final(self).wf(),
            old(self).rest().len() == 0 ==> r is None && final(self).rest().len() == 0,
            old(self).rest().len() > 0 ==> r == Some(old(self).rest()[0]) && final(self).rest()
                == old(self).rest().drop_first(),
    ;

    fn size_hint(&self) -> (r: (usize, Option<usize>))
        requires
            self.wf(),
        ensures
            r == self.hint(),
    ;
}

/// A source that hands out the elements of a vector, front to back.
pub struct VecSource<T> {
    // held in reverse order, so the next element is the last one
    items: Vec<T>,
}

impl<T> VecSource<T> {
    pub fn new(v: Vec<T>) -> (r: VecSource<T>)
        ensures
            r.wf(),
            r.rest() == v@,
            r.hint() == (v@.len() as usize, Some(v@.len() as usize)),
    {
        let ghost orig = v@;
        let mut v = v;
        let mut items: Vec<T> = Vec::new();
        while v.len() > 0
            invariant
                v@.len() + items@.len() == orig.len(),
                v@ == orig.subrange(0, v@.len() as int),
                forall|j: int|
                    0 <= j < items@.len() ==> #[trigger] items@[j] == orig[orig.len() - 1 - j],
            decreases v@.len(),
        {
            let x = v.pop().unwrap();
            items.push(x);
        }
        let r = VecSource { items };
        assert(r.rest() =~= orig);
        r
    }
}

impl<T> Source for VecSource<T> {
    type Item = T;

    open spec fn wf(&self) -> bool {
        true
    }

    closed spec fn rest(&self) -> Seq<T> {
        let n = self.items@.len();
        Seq::new(n, |i: int| self.items@[n - 1 - i])
    }

    closed spec fn hint(&self) -> (usize, Option<usize>) {
        (self.items@.len() as usize, Some(self.items@.len() as usize))
    }

    fn next(&mut self) -> (r: Option<T>) {
        let r = self.items.pop();
        if r.is_some() {
            assert(self.rest() =~= old(self).rest().drop_first());
        }
        r
    }

    fn size_hint(&self) -> (r: (usize, Option<usize>)) {
        (self.items.len(), Some(self.items.len()))
    }
}

} // verus!
