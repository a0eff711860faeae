use vstd::prelude::*;
use crate::source::{after, Source};
use vstd::arithmetic::mul::{lemma_mul_basics, lemma_mul_inequality, lemma_mul_is_distributive_add_other_way};

verus! {

/// The distance between two kept elements: a step of 0 keeps every element, as 1 does.
pub open spec fn gap(step: usize) -> int {
    if step == 0 {
        1
    } else {
        step as int
    }
}

/// The elements of `s` at positions `0, step, 2 * step, ...`.
pub open spec fn strided<T>(s: Seq<T>, step: usize) -> Seq<T>
    decreases s.len(),
{
    if s.len() == 0 {
        Seq::empty()
    } else {
        seq![s[0]] + strided(after(s, gap(step)), step)
    }
}

/// The size estimate of a strided sequence, from that of its source.
pub open spec fn stride_hint(h: (usize, Option<usize>), step: usize) -> (usize, Option<usize>) {
    if step == 0 {
        h
    } else {
        (
            (h.0 / step) as usize,
            match h.1 {
                Some(u) => Some((u / step) as usize),
                None => None,
            },
        )
    }
}

/// A strided sequence holds exactly the elements at positions `0, g, 2 * g, ...`
/// below the length of `s`, where `g` is the step (1 for a step of 0): element
/// `i` is `s[i * g]`, the last position taken is inside `s`, and the next one
/// would not be.
pub proof fn lemma_strided_positions<T>(s: Seq<T>, step: usize)
    ensures
        forall|i: int|
            0 <= i < strided(s, step).len() ==> #[trigger] strided(s, step)[i] == s[i * gap(
                step,
            )],
        s.len() == 0 ==> strided(s, step).len() == 0,
        s.len() > 0 ==> (strided(s, step).len() - 1) * gap(step) < s.len(),
        strided(s, step).len() * gap(step) >= s.len(),
    decreases s.len(),
{
    let g = gap(step);
    let r = strided(s, step);
    if s.len() > 0 {
        let t = after(s, g);
        lemma_strided_positions(t, step);
        let k = strided(t, step).len() as int;
        assert(r.len() == k + 1);
        assert forall|i: int| 0 <= i < r.len() implies #[trigger] r[i] == s[i * g] by {
            if i == 0 {
                lemma_mul_basics(g);
                assert(i * g == 0);
            } else {
                let j = i - 1;
                assert(r[i] == strided(t, step)[j]);
                lemma_mul_is_distributive_add_other_way(g, j, 1);
                assert(i * g == j * g + g);
                if t.len() > 0 {
                    lemma_mul_inequality(j, k - 1, g);
                    assert(j * g <= (k - 1) * g);
                }
                assert(t[j * g] == s[j * g + g]);
            }
        }
        lemma_mul_is_distributive_add_other_way(g, 1, k);
        assert((1 + k) * g == g + k * g);
        lemma_mul_is_distributive_add_other_way(g, k - 1, 1);
        assert(k * g == (k - 1) * g + g);
    }
}

/// A step of 0 or 1 leaves the sequence unchanged.
pub proof fn lemma_strided_unit<T>(s: Seq<T>)
    ensures
        strided(s, 0) == s,
        strided(s, 1) == s,
    decreases s.len(),
{
    if s.len() > 0 {
        lemma_strided_unit(after(s, 1));
        assert(strided(s, 0) =~= s);
        assert(strided(s, 1) =~= s);
    }
}

/// Returns the next element of its source, then skips `step - 1` more.
pub struct Stride<I> {
    iter: I,
    stride: usize,
}

impl<I: Source> Stride<I> {
    pub closed spec fn source(&self) -> I {
        self.iter
    }

    pub closed spec fn step(&self) -> usize {
        self.stride
    }

    pub fn new(iter: I, stride: usize) -> (r: Stride<I>)
        ensures
            r.source() == iter,
            r.step() == stride,
    {
        Stride { iter, stride }
    }
}

impl<I: Source> Source for Stride<I> {
    type Item = I::Item;

    open spec fn wf(&self) -> bool {
        self.source().wf()
    }

    open spec fn rest(&self) -> Seq<I::Item> {
        strided(self.source().rest(), self.step())
    }

    open spec fn hint(&self) -> (usize, Option<usize>) {
        stride_hint(self.source().hint(), self.step())
    }

    fn next(&mut self) -> (r: Option<I::Item>)
        ensures
            final(self).step() == old(self).step(),
            final(self).source().rest() == after(
                old(self).source().rest(),
                gap(old(self).step()),
            ),
    {
        let ghost s = self.iter.rest();
        let ret = self.iter.next();
        if ret.is_none() {
            assert(self.iter.rest() =~= after(s, gap(self.stride)));
            return ret;
        }
        assert(self.iter.rest() =~= after(s, 1));
        if self.stride > 1 {
            let k = self.stride;
            let mut i: usize = 1;
            while i < k
                invariant
                    self.stride == k,
                    1 <= i <= k,
                    self.iter.wf(),
                    self.iter.rest() =~= after(s, i as int),
                decreases k - i,
            {
                self.iter.next();
                i = i + 1;
                assert(self.iter.rest() =~= after(s, i as int));
            }
        }
        assert(strided(s, self.stride) =~= seq![s[0]] + strided(
            after(s, gap(self.stride)),
            self.stride,
        ));
        assert(strided(s, self.stride).drop_first() =~= strided(
            after(s, gap(self.stride)),
            self.stride,
        ));
        ret
    }

    fn size_hint(&self) -> (r: (usize, Option<usize>)) {
        if self.stride > 0 {
            match self.iter.size_hint() {
                (lower, None) => (lower / self.stride, None),
                (lower, Some(upper)) => (lower / self.stride, Some(upper / self.stride)),
            }
        } else {
            self.iter.size_hint()
        }
    }
}

} // verus!
