use vstd::prelude::*;
use crate::map_pairs::{pair_fn_ok, paired, MapPairs};
use crate::scan1::{scan_fn_ok, scanned1, Scan1};
use crate::source::Source;
use crate::stride::{stride_hint, strided, Stride};

verus! {

/// Builders that wrap any source in one of the adapters.
pub trait IteratorExtra: Source {
    /// Traverses the source `stride` elements at a time: the first element is
    /// returned, then `stride - 1` are skipped. A stride of 0 is the same as a
    /// stride of 1, which leaves the sequence unaltered.
    fn stride(self, stride: usize) -> (r: Stride<Self>)
        ensures
            r.source() == self,
            r.step() == stride,
            r.wf() == self.wf(),
            r.rest() == strided(self.rest(), stride),
            r.hint() == stride_hint(self.hint(), stride),
    {
        Stride::new(self, stride)
    }

    /// Combines each chunk of two elements with `f`; with an odd number of
    /// elements, the last one is dropped.
    fn map_pairs<B, F>(self, f: F) -> (r: MapPairs<B, Self, F>) where
        F: Fn([Self::Item; 2]) -> B,

        ensures
            r.source() == self,
            r.func() == f,
            r.wf() == (self.wf() && pair_fn_ok(f)),
            r.rest() == paired(f, self.rest()),
            r.hint() == self.hint(),
    {
        MapPairs::new(self, f)
    }

    /// Like a scan, but with the first element as the initial state: `f`
    /// takes the state and the next element and returns the next state and
    /// an optional output.
    fn scan1<B, F>(self, f: F) -> (r: Scan1<B, Self, F>) where
        F: Fn(Self::Item, Self::Item) -> (Self::Item, Option<B>),

        ensures
            r.source() == self,
            r.func() == f,
            r.state() is None,
            !r.finished(),
            r.wf() == (self.wf() && scan_fn_ok(f)),
            r.rest() == scanned1(f, self.rest()),
            r.hint() == (0usize, self.hint().1),
    {
        Scan1::new(self, f)
    }

    /// Pulls every remaining element, in order.
    fn collect_vec(self) -> (r: Vec<Self::Item>)
        requires
            self.wf(),
        ensures
            r@ == self.rest(),
    {
        let ghost all = self.rest();
        let mut src = self;
        let mut out: Vec<Self::Item> = Vec::new();
        loop
            invariant
                src.wf(),
                out@ + src.rest() == all,
                all == self.rest(),
            decreases src.rest().len(),
        {
            let ghost before = src.rest();
            match src.next() {
                None => {
                    assert(out@ =~= all);
                    return out;
                },
                Some(x) => {
                    out.push(x);
                    assert(out@ + src.rest() =~= all) by {
                        assert(before =~= seq![x] + src.rest());
                    }
                },
            }
        }
    }
}

/// Striding a paired sequence applies the pairing contract, then the striding one.
pub proof fn lemma_stride_of_pairs<B, I, F>(st: Stride<MapPairs<B, I, F>>) where
    I: Source,
    F: Fn([I::Item; 2]) -> B,

    ensures
        st.wf() == (st.source().source().wf() && pair_fn_ok(st.source().func())),
        st.rest() == strided(paired(st.source().func(), st.source().source().rest()), st.step()),
        st.hint() == stride_hint(st.source().source().hint(), st.step()),
{
}

/// Pairing a strided sequence applies the striding contract, then the pairing one.
pub proof fn lemma_pairs_of_stride<B, I, F>(m: MapPairs<B, Stride<I>, F>) where
    I: Source,
    F: Fn([I::Item; 2]) -> B,

    ensures
        m.wf() == (m.source().source().wf() && pair_fn_ok(m.func())),
        m.rest() == paired(m.func(), strided(m.source().source().rest(), m.source().step())),
        m.hint() == stride_hint(m.source().source().hint(), m.source().step()),
{
}

impl<I: Source> IteratorExtra for I {

}

} // verus!
