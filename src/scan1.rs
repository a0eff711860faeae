use vstd::prelude::*;
use crate::source::{after, Source};

verus! {

/// `f` accepts every state and element and gives the same result for the same pair.
pub open spec fn scan_fn_ok<T, B, F: Fn(T, T) -> (T, Option<B>)>(f: F) -> bool {
    &&& forall|st: T, x: T| #[trigger] call_requires(f, (st, x))
    &&& forall|st: T, x: T, p: (T, Option<B>), q: (T, Option<B>)|
        #[trigger] call_ensures(f, (st, x), p) && #[trigger] call_ensures(f, (st, x), q) ==> p
            == q
}

/// The next state and the output that `f` gives for state `st` and element `x`.
pub open spec fn scan_image<T, B, F: Fn(T, T) -> (T, Option<B>)>(f: F, st: T, x: T) -> (
    T,
    Option<B>,
) {
    choose|r: (T, Option<B>)| call_ensures(f, (st, x), r)
}

/// Any result that `f` has been seen to give on `(st, x)` is its image of that pair.
pub proof fn lemma_scan_image<T, B, F: Fn(T, T) -> (T, Option<B>)>(
    f: F,
    st: T,
    x: T,
    r: (T, Option<B>),
)
    requires
        scan_fn_ok(f),
        call_ensures(f, (st, x), r),
    ensures
        scan_image(f, st, x) == r,
{
}

/// The outputs of the scan from state `st` over `s`, up to the first step without one.
pub open spec fn scanned<T, B, F: Fn(T, T) -> (T, Option<B>)>(f: F, st: T, s: Seq<T>) -> Seq<B>
    decreases s.len(),
{
    if s.len() == 0 {
        Seq::empty()
    } else {
        let (next, out) = scan_image(f, st, s[0]);
        match out {
            None => Seq::empty(),
            Some(b) => seq![b] + scanned(f, next, s.drop_first()),
        }
    }
}

/// The outputs of the scan over `s` seeded with its first element.
pub open spec fn scanned1<T, B, F: Fn(T, T) -> (T, Option<B>)>(f: F, s: Seq<T>) -> Seq<B> {
    if s.len() == 0 {
        Seq::empty()
    } else {
        scanned(f, s[0], s.drop_first())
    }
}

/// The scan gives at most one output per element it is fed.
pub proof fn lemma_scanned_len<T, B, F: Fn(T, T) -> (T, Option<B>)>(f: F, st: T, s: Seq<T>)
    ensures
        scanned(f, st, s).len() <= s.len(),
    decreases s.len(),
{
    if s.len() > 0 {
        let (next, out) = scan_image(f, st, s[0]);
        lemma_scanned_len(f, next, s.drop_first());
    }
}

/// The first element of a non-empty source only seeds the state: the scan
/// runs from it over the elements after it, and so gives fewer outputs than
/// the source has elements.
pub proof fn lemma_scanned1_seed<T, B, F: Fn(T, T) -> (T, Option<B>)>(f: F, s: Seq<T>)
    requires
        s.len() > 0,
    ensures
        scanned1(f, s) == scanned(f, s[0], s.drop_first()),
        scanned1(f, s).len() < s.len(),
{
    lemma_scanned_len(f, s[0], s.drop_first());
}

/// The running state after the first `i` steps of the scan from `st` over `s`.
pub open spec fn scan_state<T, B, F: Fn(T, T) -> (T, Option<B>)>(
    f: F,
    st: T,
    s: Seq<T>,
    i: nat,
) -> T
    decreases i,
{
    if i == 0 {
        st
    } else {
        scan_image(f, scan_state(f, st, s, (i - 1) as nat), s[i - 1]).0
    }
}

/// Starting one element later from the state after the first step follows the same states.
pub proof fn lemma_scan_state_shift<T, B, F: Fn(T, T) -> (T, Option<B>)>(
    f: F,
    st: T,
    s: Seq<T>,
    i: nat,
)
    requires
        0 < s.len(),
        i < s.len(),
    ensures
        scan_state(f, st, s, i + 1) == scan_state(
            f,
            scan_image(f, st, s[0]).0,
            s.drop_first(),
            i,
        ),
    decreases i,
{
    let t = s.drop_first();
    let n = scan_image(f, st, s[0]).0;
    if i > 0 {
        lemma_scan_state_shift(f, st, s, (i - 1) as nat);
        assert(t[i - 1] == s[i as int]);
        assert(scan_state(f, n, t, i) == scan_image(f, scan_state(f, n, t, (i - 1) as nat), t[i
            - 1]).0);
    } else {
        assert(scan_state(f, st, s, 0) == st);
        assert(scan_state(f, st, s, 1) == scan_image(f, scan_state(f, st, s, 0), s[0]).0);
    }
}

/// When every step gives an output, the scan from `st` over `s` gives one
/// output per element: output `i` is what `f` gives for the state after `i`
/// steps and element `s[i]`.
pub proof fn lemma_scanned_steps<T, B, F: Fn(T, T) -> (T, Option<B>)>(f: F, st: T, s: Seq<T>)
    requires
        forall|i: int|
            0 <= i < s.len() ==> (#[trigger] scan_image(f, scan_state(f, st, s, i as nat), s[i])).1
                is Some,
    ensures
        scanned(f, st, s).len() == s.len(),
        forall|i: int|
            0 <= i < s.len() ==> #[trigger] scanned(f, st, s)[i] == scan_image(
                f,
                scan_state(f, st, s, i as nat),
                s[i],
            ).1->0,
    decreases s.len(),
{
    if s.len() > 0 {
        let first = scan_image(f, st, s[0]);
        let t = s.drop_first();
        let z: int = 0;
        assert(scan_image(f, scan_state(f, st, s, z as nat), s[z]).1 is Some);
        assert(scan_state(f, st, s, z as nat) == st);
        assert(scanned(f, st, s) =~= seq![first.1->0] + scanned(f, first.0, t));
        assert forall|i: int| 0 <= i < t.len() implies (#[trigger] scan_image(
            f,
            scan_state(f, first.0, t, i as nat),
            t[i],
        )).1 is Some by {
            lemma_scan_state_shift(f, st, s, i as nat);
            assert(scan_image(f, scan_state(f, st, s, (i + 1) as nat), s[i + 1]).1 is Some);
        }
        lemma_scanned_steps(f, first.0, t);
        assert forall|i: int| 0 <= i < s.len() implies #[trigger] scanned(f, st, s)[i]
            == scan_image(f, scan_state(f, st, s, i as nat), s[i]).1->0 by {
            if i > 0 {
                lemma_scan_state_shift(f, st, s, (i - 1) as nat);
                assert(scanned(f, st, s)[i] == scanned(f, first.0, t)[i - 1]);
            }
        }
    }
}

/// When every step gives an output, the scan seeded by the first element of
/// `s` gives one output for each later element: output `i` is what `f` gives
/// for the state after `i` steps and element `s[i + 1]`.
pub proof fn lemma_scanned1_steps<T, B, F: Fn(T, T) -> (T, Option<B>)>(f: F, s: Seq<T>)
    requires
        s.len() > 0,
        forall|i: int|
            0 <= i < s.len() - 1 ==> (#[trigger] scan_image(
                f,
                scan_state(f, s[0], s.drop_first(), i as nat),
                s[i + 1],
            )).1 is Some,
    ensures
        scanned1(f, s).len() == s.len() - 1,
        forall|i: int|
            0 <= i < s.len() - 1 ==> #[trigger] scanned1(f, s)[i] == scan_image(
                f,
                scan_state(f, s[0], s.drop_first(), i as nat),
                s[i + 1],
            ).1->0,
{
    let t = s.drop_first();
    assert forall|i: int| 0 <= i < t.len() implies (#[trigger] scan_image(
        f,
        scan_state(f, s[0], t, i as nat),
        t[i],
    )).1 is Some by {
        assert(t[i] == s[i + 1]);
    }
    lemma_scanned_steps(f, s[0], t);
    assert forall|i: int| 0 <= i < s.len() - 1 implies #[trigger] scanned1(f, s)[i]
        == scan_image(f, scan_state(f, s[0], t, i as nat), s[i + 1]).1->0 by {
        assert(t[i] == s[i + 1]);
    }
}

/// Scanning an empty sequence gives nothing.
pub proof fn lemma_scanned1_empty<T, B, F: Fn(T, T) -> (T, Option<B>)>(f: F)
    ensures
        scanned1(f, Seq::<T>::empty()).len() == 0,
{
}

/// A running transform seeded with the first element of its source.
///
/// The first element becomes the state and is never output itself. Each later
/// element is passed to `f` with the state; `f` returns the next state and
/// an optional output. A step without output ends the sequence for good.
#[verifier::reject_recursive_types(B)]
pub struct Scan1<B, I, F> where I: Source, F: Fn(I::Item, I::Item) -> (I::Item, Option<B>) {
    iter: I,
    f: F,
    state: Option<I::Item>,
    done: bool,
}

impl<B, I, F> Scan1<B, I, F> where I: Source, F: Fn(I::Item, I::Item) -> (I::Item, Option<B>) {
    pub closed spec fn source(&self) -> I {
        self.iter
    }

    pub closed spec fn func(&self) -> F {
        self.f
    }

    /// The running state, `None` until the first element has been pulled.
    pub closed spec fn state(&self) -> Option<I::Item> {
        self.state
    }

    /// Whether a step without output has ended the sequence.
    pub closed spec fn finished(&self) -> bool {
        self.done
    }

    pub fn new(iter: I, f: F) -> (r: Scan1<B, I, F>)
        ensures
            r.source() == iter,
            r.func() == f,
            r.state() is None,
            !r.finished(),
    {
        Scan1 { iter, f, state: None, done: false }
    }
}

impl<B, I, F> Source for Scan1<B, I, F> where
    I: Source,
    F: Fn(I::Item, I::Item) -> (I::Item, Option<B>),
 {
    type Item = B;

    open spec fn wf(&self) -> bool {
        self.source().wf() && scan_fn_ok(self.func())
    }

    open spec fn rest(&self) -> Seq<B> {
        if self.finished() {
            Seq::empty()
        } else {
            match self.state() {
                None => scanned1(self.func(), self.source().rest()),
                Some(st) => scanned(self.func(), st, self.source().rest()),
            }
        }
    }

    open spec fn hint(&self) -> (usize, Option<usize>) {
        (0, self.source().hint().1)
    }

    fn next(&mut self) -> (r: Option<B>)
        ensures
            final(self).func() == old(self).func(),
            old(self).finished() ==> *final(self) == *old(self),
            !old(self).finished() && old(self).state() is None
                && old(self).source().rest().len() == 0 ==> ({
                &&& final(self).state() is None
                &&& !final(self).finished()
                &&& final(self).source().rest().len() == 0
            }),
            !old(self).finished() && old(self).state() is None
                && old(self).source().rest().len() == 1 ==> ({
                &&& final(self).state() == Some(old(self).source().rest()[0])
                &&& !final(self).finished()
                &&& final(self).source().rest().len() == 0
            }),
            !old(self).finished() && old(self).state() is None
                && old(self).source().rest().len() >= 2 ==> ({
                let s = old(self).source().rest();
                let (next, out) = scan_image(old(self).func(), s[0], s[1]);
                &&& final(self).source().rest() == after(s, 2)
                &&& final(self).state() == Some(next)
                &&& final(self).finished() == (out is None)
            }),
            !old(self).finished() && old(self).state() is Some
                && old(self).source().rest().len() == 0 ==> ({
                &&& final(self).state() == old(self).state()
                &&& !final(self).finished()
                &&& final(self).source().rest().len() == 0
            }),
            !old(self).finished() && old(self).state() is Some
                && old(self).source().rest().len() > 0 ==> ({
                let s = old(self).source().rest();
                let (next, out) = scan_image(old(self).func(), old(self).state()->0, s[0]);
                &&& final(self).source().rest() == after(s, 1)
                &&& final(self).state() == Some(next)
                &&& final(self).finished() == (out is None)
            }),
    {
        if self.done {
            return None;
        }
        let ghost s0 = self.iter.rest();
        if self.state.is_none() {
            self.state = self.iter.next();
        }
        let st = match self.state.take() {
            None => {
                return None;
            },
            Some(st) => st,
        };
        let ghost s = self.iter.rest();
        match self.iter.next() {
            None => {
                self.state = Some(st);
                None
            },
            Some(x) => {
                let (next, out) = (self.f)(st, x);
                assert(call_ensures(self.f, (st, s[0]), (next, out)));
                assert(scan_image(self.f, st, s[0]) == (next, out));
                self.state = Some(next);
                if out.is_none() {
                    self.done = true;
                } else {
                    assert(scanned(self.f, st, s).drop_first() =~= scanned(
                        self.f,
                        next,
                        s.drop_first(),
                    ));
                }
                assert(self.iter.rest() =~= after(s, 1));
                proof {
                    if old(self).state is None {
                        assert(s =~= s0.drop_first());
                        assert(self.iter.rest() =~= after(s0, 2));
                    }
                }
                out
            },
        }
    }

    fn size_hint(&self) -> (r: (usize, Option<usize>)) {
        let (_, upper) = self.iter.size_hint();
        (0, upper)
    }
}

} // verus!
