//! A lazy numbering of a walk by runs: an item keeps the number of its
//! predecessor as long as it equals it, directly or through a projection.
//! Nothing is taken from the walk underneath before the first `next`.

use vstd::prelude::*;
use vstd::std_specs::cmp::PartialEqSpec;
use crate::runs::{
    has_key, is_projection, lemma_numbered_unfold, numbered, same_item, same_key,
};
use crate::walk::{head, tail, Walk};

verus! {

/// The number of the current run; `Unset` before the first item was taken.
#[derive(Clone, Copy, Debug, PartialEq, Eq, Structural)]
pub enum Ix {
    Unset,
    At(usize),
}

impl Default for Ix {
    fn default() -> (ix: Ix)
        ensures
            ix == Ix::Unset,
    {
        Ix::Unset
    }
}

impl From<usize> for Ix {
    fn from(value: usize) -> (ix: Ix) {
        Ix::At(value)
    }
}

impl vstd::std_specs::convert::FromSpecImpl<usize> for Ix {
    open spec fn obeys_from_spec() -> bool {
        true
    }

    open spec fn from_spec(value: usize) -> Ix {
        Ix::At(value)
    }
}

impl Ix {
    /// The number after this one: zero after `Unset`.
    pub open spec fn succ(self) -> Ix {
        match self {
            Ix::Unset => Ix::At(0),
            Ix::At(i) => Ix::At((i + 1) as usize),
        }
    }

    /// Moves on to the next number.
    pub fn inc(&mut self)
        requires
            *old(self) != Ix::At(usize::MAX),
        ensures
            *final(self) == old(self).succ(),
    {
        match *self {
            Ix::Unset => {
                *self = Ix::At(0);
            },
            Ix::At(i) => {
                *self = Ix::At(i + 1);
            },
        }
    }
}

/// Numbers the items of a walk by runs of equal items.
pub struct RunEnumerateIter<I, A> {
    inner_iter: I,
    last: Option<A>,
    ix: Ix,
}

/// Numbers the items of a walk by runs of items with equal keys.
pub struct RunEnumerateProjectIter<I, A, F> {
    inner_iter: I,
    last: Option<A>,
    ix: Ix,
    proj: F,
}

/// What a numbering has still to hand out: from the item it holds back,
/// if any, and what the walk underneath has left.
pub open spec fn pending<A>(
    ix: Ix,
    last: Option<A>,
    rest: Seq<A>,
    same: spec_fn(A, A) -> bool,
) -> Seq<(usize, A)> {
    match ix {
        Ix::Unset => numbered(rest, same, 0),
        Ix::At(n) => match last {
            Some(item) => numbered(seq![item] + rest, same, n as nat),
            None => Seq::empty(),
        },
    }
}

/// The numbers still to come fit a `usize`.
pub open spec fn in_range<A>(ix: Ix, last: Option<A>, rest: Seq<A>) -> bool {
    match ix {
        Ix::Unset => last is None && rest.len() <= usize::MAX,
        Ix::At(n) => last is Some ==> n + rest.len() + 1 <= usize::MAX,
    }
}

impl<I: Walk<Item = A>, A: PartialEq> RunEnumerateIter<I, A> {
    /// The walk underneath.
    pub closed spec fn inner(&self) -> I {
        self.inner_iter
    }

    /// The item taken from the walk underneath and not yet handed out.
    pub closed spec fn held(&self) -> Option<A> {
        self.last
    }

    /// The number of the run of the held item.
    pub closed spec fn run(&self) -> Ix {
        self.ix
    }

    /// One step with a held item: looks at the following item, hands out
    /// the held one with the current number, and moves the number on if the
    /// two differ.
    fn step(&mut self, ix: usize) -> (item: Option<(usize, A)>)
        requires
            old(self).wf(),
            old(self).run() == Ix::At(ix),
        ensures
            final(self).wf(),
            item == head(old(self).remaining()),
            final(self).remaining() == tail(old(self).remaining()),
    {
        if self.last.is_some() {
            let ghost held = self.last->0;
            let ghost rest = self.inner_iter.remaining();
            proof {
                lemma_numbered_unfold(held, rest, same_item::<A>(), ix as nat);
            }
            let maybe_next = self.inner_iter.next();
            let is_eq = self.last == maybe_next;
            if !is_eq {
                self.ix.inc();
            }
            let res = self.last.take();
            self.last = maybe_next;
            proof {
                if rest.len() > 0 {
                    assert(seq![rest[0]] + rest.drop_first() =~= rest);
                }
            }
            match res {
                Some(x) => Some((ix, x)),
                None => None,
            }
        } else {
            None
        }
    }
}

impl<I: Walk<Item = A>, A: PartialEq> Walk for RunEnumerateIter<I, A> {
    type Item = (usize, A);

    open spec fn wf(&self) -> bool {
        &&& A::obeys_eq_spec()
        &&& self.inner().wf()
        &&& in_range(self.run(), self.held(), self.inner().remaining())
    }

    open spec fn remaining(&self) -> Seq<(usize, A)> {
        pending(self.run(), self.held(), self.inner().remaining(), same_item::<A>())
    }

    proof fn remaining_is_countable(&self) {
    }

    fn next(&mut self) -> (item: Option<(usize, A)>) {
        match self.ix {
            Ix::Unset => {
                let ghost rest = self.inner_iter.remaining();
                match self.inner_iter.next() {
                    Some(next) => {
                        self.last = Some(next);
                        self.ix.inc();
                        proof {
                            assert(seq![next] + rest.drop_first() =~= rest);
                        }
                        self.step(0)
                    },
                    None => None,
                }
            },
            Ix::At(ix) => self.step(ix),
        }
    }
}

/// Numbers the items of `iter` by runs of equal items, from zero.
pub fn run_enumerate<I: Walk<Item = A>, A: PartialEq>(iter: I) -> (it: RunEnumerateIter<I, A>)
    ensures
        it.wf() <==> iter.wf() && A::obeys_eq_spec(),
        it.remaining() == numbered(iter.remaining(), same_item::<A>(), 0),
        it.inner() == iter,
        it.held() is None,
        it.run() == Ix::Unset,
{
    proof {
        if iter.wf() {
            iter.remaining_is_countable();
        }
    }
    RunEnumerateIter { inner_iter: iter, last: None, ix: Ix::Unset }
}

impl<I: Walk<Item = A>, A, R: PartialEq, F: Fn(&A) -> R> RunEnumerateProjectIter<I, A, F> {
    /// The walk underneath.
    pub closed spec fn inner(&self) -> I {
        self.inner_iter
    }

    /// The item taken from the walk underneath and not yet handed out.
    pub closed spec fn held(&self) -> Option<A> {
        self.last
    }

    /// The number of the run of the held item.
    pub closed spec fn run(&self) -> Ix {
        self.ix
    }

    /// The projection that gives the keys.
    pub closed spec fn projection(&self) -> F {
        self.proj
    }

    /// Runs the numbering to its end and returns everything it handed
    /// out. The projection has given a key for each of these items.
    pub fn collect(self) -> (items: Vec<(usize, A)>)
        requires
            self.wf(),
        ensures
            items@ == self.remaining(),
            forall|j: int|
                0 <= j < items@.len() ==> has_key(self.projection(), (#[trigger] items@[j]).1),
    {
        let mut it = self;
        let ghost all = it.remaining();
        let mut items: Vec<(usize, A)> = Vec::new();
        loop
            invariant
                it.wf(),
                it.projection() == self.projection(),
                items@ + it.remaining() == all,
                forall|j: int|
                    0 <= j < items@.len() ==> has_key(
                        self.projection(),
                        (#[trigger] items@[j]).1,
                    ),
            ensures
                items@ == all,
                forall|j: int|
                    0 <= j < items@.len() ==> has_key(
                        self.projection(),
                        (#[trigger] items@[j]).1,
                    ),
            decreases it.remaining().len(),
        {
            let ghost before = items@;
            let ghost rest = it.remaining();
            match it.next() {
                Some(item) => {
                    items.push(item);
                    proof {
                        assert(items@ + it.remaining() =~= before + rest);
                    }
                },
                None => {
                    proof {
                        assert(items@ =~= before + rest);
                    }
                    break ;
                },
            }
        }
        items
    }

    /// One step with a held item: looks at the following item, hands out
    /// the held one with the current number, and moves the number on if the
    /// keys of the two differ.
    fn step(&mut self, ix: usize) -> (item: Option<(usize, A)>)
        requires
            old(self).wf(),
            old(self).run() == Ix::At(ix),
        ensures
            final(self).wf(),
            item == head(old(self).remaining()),
            final(self).remaining() == tail(old(self).remaining()),
            final(self).projection() == old(self).projection(),
            item matches Some((_, x)) ==> has_key(old(self).projection(), x),
    {
        if self.last.is_some() {
            let ghost held = self.last->0;
            let ghost rest = self.inner_iter.remaining();
            proof {
                lemma_numbered_unfold(held, rest, same_key::<A, R, F>(self.proj), ix as nat);
            }
            let maybe_next = self.inner_iter.next();
            let key_last = match &self.last {
                Some(a) => Some((self.proj)(a)),
                None => None,
            };
            let key_next = match &maybe_next {
                Some(b) => Some((self.proj)(b)),
                None => None,
            };
            let is_eq = key_last == key_next;
            if !is_eq {
                self.ix.inc();
            }
            let res = self.last.take();
            self.last = maybe_next;
            proof {
                if rest.len() > 0 {
                    assert(seq![rest[0]] + rest.drop_first() =~= rest);
                }
            }
            match res {
                Some(x) => Some((ix, x)),
                None => None,
            }
        } else {
            None
        }
    }
}

impl<I: Walk<Item = A>, A, R: PartialEq, F: Fn(&A) -> R> Walk for RunEnumerateProjectIter<
    I,
    A,
    F,
> {
    type Item = (usize, A);

    open spec fn wf(&self) -> bool {
        &&& R::obeys_eq_spec()
        &&& is_projection::<A, R, F>(self.projection())
        &&& self.inner().wf()
        &&& in_range(self.run(), self.held(), self.inner().remaining())
    }

    open spec fn remaining(&self) -> Seq<(usize, A)> {
        pending(
            self.run(),
            self.held(),
            self.inner().remaining(),
            same_key::<A, R, F>(self.projection()),
        )
    }

    proof fn remaining_is_countable(&self) {
    }

    fn next(&mut self) -> (item: Option<(usize, A)>)
        ensures
            final(self).projection() == old(self).projection(),
            item matches Some((_, x)) ==> has_key(old(self).projection(), x),
    {
        match self.ix {
            Ix::Unset => {
                let ghost rest = self.inner_iter.remaining();
                match self.inner_iter.next() {
                    Some(next) => {
                        self.last = Some(next);
                        self.ix.inc();
                        proof {
                            assert(seq![next] + rest.drop_first() =~= rest);
                        }
                        self.step(0)
                    },
                    None => None,
                }
            },
            Ix::At(ix) => self.step(ix),
        }
    }
}

/// Numbers the items of `iter` from zero by runs of items to which `f`
/// gives equal keys.
pub fn run_enumerate_with<I: Walk<Item = A>, A, R: PartialEq, F: Fn(&A) -> R>(iter: I, f: F) -> (it:
    RunEnumerateProjectIter<I, A, F>)
    ensures
        it.wf() <==> iter.wf() && R::obeys_eq_spec() && is_projection::<A, R, F>(f),
        it.remaining() == numbered(iter.remaining(), same_key::<A, R, F>(f), 0),
        it.inner() == iter,
        it.projection() == f,
        it.held() is None,
        it.run() == Ix::Unset,
{
    proof {
        if iter.wf() {
            iter.remaining_is_countable();
        }
    }
    RunEnumerateProjectIter { inner_iter: iter, last: None, ix: Ix::Unset, proj: f }
}

} // verus!
