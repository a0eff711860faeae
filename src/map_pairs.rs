use vstd::prelude::*;
use crate::source::{after, Source};

verus! {

/// `f` accepts every pair and gives the same output for the same pair.
pub open spec fn pair_fn_ok<T, B, F: Fn([T; 2]) -> B>(f: F) -> bool {
    &&& forall|p: [T; 2]| #[trigger] call_requires(f, (p,))
    &&& forall|p: [T; 2], x: B, y: B|
        #[trigger] call_ensures(f, (p,), x) && #[trigger] call_ensures(f, (p,), y) ==> x == y
}

/// What `f` returns on the pair `[a, b]`.
pub open spec fn pair_image<T, B, F: Fn([T; 2]) -> B>(f: F, a: T, b: T) -> B {
    choose|r: B| call_ensures(f, ([a, b],), r)
}

/// Any output that `f` has been seen to give on `[a, b]` is its image of that pair.
pub proof fn lemma_pair_image<T, B, F: Fn([T; 2]) -> B>(f: F, a: T, b: T, r: B)
    requires
        pair_fn_ok(f),
        call_ensures(f, ([a, b],), r),
    ensures
        pair_image(f, a, b) == r,
{
}

/// `f` applied to each consecutive pair of `s`; a trailing odd element is dropped.
pub open spec fn paired<T, B, F: Fn([T; 2]) -> B>(f: F, s: Seq<T>) -> Seq<B> {
    Seq::new(s.len() / 2, |i: int| pair_image(f, s[2 * i], s[2 * i + 1]))
}

/// Pairing `s` gives `s.len() / 2` outputs, the `i`-th being `f` on the elements
/// at `2 * i` and `2 * i + 1`; on an odd length the last element is dropped.
pub proof fn lemma_paired_shape<T, B, F: Fn([T; 2]) -> B>(f: F, s: Seq<T>)
    ensures
        paired(f, s).len() == s.len() / 2,
        forall|i: int|
            0 <= i < s.len() / 2 ==> #[trigger] paired(f, s)[i] == pair_image(
                f,
                s[2 * i],
                s[2 * i + 1],
            ),
        s.len() % 2 == 1 ==> paired(f, s) == paired(f, s.drop_last()),
{
    if s.len() % 2 == 1 {
        assert(paired(f, s) =~= paired(f, s.drop_last()));
    }
}

/// Pairing an empty sequence gives nothing.
pub proof fn lemma_paired_empty<T, B, F: Fn([T; 2]) -> B>(f: F)
    ensures
        paired(f, Seq::<T>::empty()).len() == 0,
{
}

/// Pulls two elements of its source at a time and combines them into one.
///
/// When the source runs out after the first element of a pair, that element
/// is dropped and the sequence is exhausted.
#[verifier::reject_recursive_types(B)]
pub struct MapPairs<B, I, F> where I: Source, F: Fn([I::Item; 2]) -> B {
    iter: I,
    f: F,
}

impl<B, I, F> MapPairs<B, I, F> where I: Source, F: Fn([I::Item; 2]) -> B {
    pub closed spec fn source(&self) -> I {
        self.iter
    }

    pub closed spec fn func(&self) -> F {
        self.f
    }

    pub fn new(iter: I, f: F) -> (r: MapPairs<B, I, F>)
        ensures
            r.source() == iter,
            r.func() == f,
    {
        MapPairs { iter, f }
    }
}

impl<B, I, F> Source for MapPairs<B, I, F> where I: Source, F: Fn([I::Item; 2]) -> B {
    type Item = B;

    open spec fn wf(&self) -> bool {
        self.source().wf() && pair_fn_ok(self.func())
    }

    open spec fn rest(&self) -> Seq<B> {
        paired(self.func(), self.source().rest())
    }

    open spec fn hint(&self) -> (usize, Option<usize>) {
        self.source().hint()
    }

    fn next(&mut self) -> (r: Option<B>)
        ensures
            final(self).func() == old(self).func(),
            final(self).source().rest() == after(old(self).source().rest(), 2),
    {
        let ghost s = self.iter.rest();
        let a = self.iter.next();
        match a {
            None => {
                assert(self.iter.rest() =~= after(s, 2));
                None
            },
            Some(x) => {
                let b = self.iter.next();
                match b {
                    None => {
                        assert(self.iter.rest() =~= after(s, 2));
                        None
                    },
                    Some(y) => {
                        let r = (self.f)([x, y]);
                        assert(call_ensures(self.f, ([s[0], s[1]],), r));
                        assert(paired(self.f, s)[0] == r);
                        assert(paired(self.f, after(s, 2)) =~= paired(self.f, s).drop_first()) by {
                            assert forall|i: int| 0 <= i < after(s, 2).len() / 2 implies
                                #[trigger] after(s, 2)[2 * i] == s[2 * i + 2]
                                && after(s, 2)[2 * i + 1] == s[2 * i + 3] by {}
                        }
                        assert(self.iter.rest() =~= after(s, 2));
                        Some(r)
                    },
                }
            },
        }
    }

    fn size_hint(&self) -> (r: (usize, Option<usize>)) {
        self.iter.size_hint()
    }
}

} // verus!
