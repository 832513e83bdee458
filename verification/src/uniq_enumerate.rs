//! A numbering of a walk by runs, as in `run_enumerate`, that takes the
//! first item from the walk underneath as soon as it is made.

use vstd::prelude::*;
use vstd::std_specs::cmp::PartialEqSpec;
use crate::runs::{
    has_key, is_projection, lemma_numbered_unfold, numbered, same_item, same_key,
};
use crate::walk::{head, tail, Walk};

verus! {

/// Numbers the items of a walk by runs of equal items.
pub struct UniqEnumerateIter<'a, I, A> {
    inner_iter: &'a mut I,
    last: Option<A>,
    ix: usize,
}

/// Numbers the items of a walk by runs of items with equal keys.
pub struct UniqEnumerateProjIter<'a, I, A, F> {
    inner_iter: &'a mut I,
    last: Option<A>,
    ix: usize,
    proj: F,
}

/// What a numbering has still to hand out: from the item it holds back,
/// if any, and what the walk underneath has left.
pub open spec fn pending<A>(
    ix: usize,
    last: Option<A>,
    rest: Seq<A>,
    same: spec_fn(A, A) -> bool,
) -> Seq<(usize, A)> {
    match last {
        Some(item) => numbered(seq![item] + rest, same, ix as nat),
        None => Seq::empty(),
    }
}

/// The numbers still to come fit a `usize`.
pub open spec fn in_range<A>(ix: usize, last: Option<A>, rest: Seq<A>) -> bool {
    last is Some ==> ix + rest.len() + 1 <= usize::MAX
}

impl<'a, I: Walk<Item = A>, A: PartialEq> UniqEnumerateIter<'a, I, A> {
    /// The walk underneath.
    pub closed spec fn inner(&self) -> I {
        *self.inner_iter
    }

    /// The item taken from the walk underneath and not yet handed out.
    pub closed spec fn held(&self) -> Option<A> {
        self.last
    }

    /// The number of the run of the held item.
    pub closed spec fn run(&self) -> usize {
        self.ix
    }
}

impl<'a, I: Walk<Item = A>, A: PartialEq> Walk for UniqEnumerateIter<'a, I, A> {
    type Item = (usize, A);

    open spec fn wf(&self) -> bool {
        &&& A::obeys_eq_spec()
        &&& self.inner().wf()
        &&& in_range(self.run(), self.held(), self.inner().remaining())
    }

    open spec fn remaining(&self) -> Seq<(usize, A)> {
        pending(self.run(), self.held(), self.inner().remaining(), same_item::<A>())
    }

    proof fn remaining_is_countable(&self) {
    }

    fn next(&mut self) -> (item: Option<(usize, A)>) {
        if self.last.is_some() {
            let ix = self.ix;
            let ghost held = self.last->0;
            let ghost rest = self.inner_iter.remaining();
            proof {
                lemma_numbered_unfold(held, rest, same_item::<A>(), ix as nat);
            }
            let maybe_next = self.inner_iter.next();
            let is_eq = self.last == maybe_next;
            if !is_eq {
                self.ix = self.ix + 1;
            }
            let res = self.last.take();
            self.last = maybe_next;
            proof {
                if rest.len() > 0 {
                    assert(seq![rest[0]] + rest.drop_first() =~= rest);
                }
            }
            match res {
                Some(x) => Some((ix, x)),
                None => None,
            }
        } else {
            None
        }
    }
}

/// Numbers the items of `iter` by runs of equal items, from zero.
pub fn enumerate<'a, I: Walk<Item = A>, A: PartialEq>(iter: &'a mut I) -> (it: UniqEnumerateIter<
    'a,
    I,
    A,
>)
    requires
        old(iter).wf(),
    ensures
        it.wf() <==> A::obeys_eq_spec(),
        it.remaining() == numbered(old(iter).remaining(), same_item::<A>(), 0),
        it.held() == head(old(iter).remaining()),
        it.inner().remaining() == tail(old(iter).remaining()),
        it.run() == 0,
{
    let ghost all = iter.remaining();
    proof {
        iter.remaining_is_countable();
    }
    let next = iter.next();
    proof {
        if all.len() > 0 {
            assert(seq![all[0]] + all.drop_first() =~= all);
        } else {
            assert(numbered(all, same_item::<A>(), 0) =~= Seq::<(usize, A)>::empty());
        }
    }
    UniqEnumerateIter { inner_iter: iter, last: next, ix: 0 }
}

impl<'a, I: Walk<Item = A>, A, R: PartialEq, F: Fn(&A) -> R> UniqEnumerateProjIter<'a, I, A, F> {
    /// The walk underneath.
    pub closed spec fn inner(&self) -> I {
        *self.inner_iter
    }

    /// The item taken from the walk underneath and not yet handed out.
    pub closed spec fn held(&self) -> Option<A> {
        self.last
    }

    /// The number of the run of the held item.
    pub closed spec fn run(&self) -> usize {
        self.ix
    }

    /// The projection that gives the keys.
    pub closed spec fn projection(&self) -> F {
        self.proj
    }

    /// Runs the numbering to its end and returns everything it handed
    /// out. The projection has given a key for each of these items.
    pub fn collect(self) -> (items: Vec<(usize, A)>)
        requires
            self.wf(),
        ensures
            items@ == self.remaining(),
            forall|j: int|
                0 <= j < items@.len() ==> has_key(self.projection(), (#[trigger] items@[j]).1),
    {
        let ghost all = self.remaining();
        let ghost proj = self.projection();
        let mut it = self;
        let mut items: Vec<(usize, A)> = Vec::new();
        loop
            invariant
                it.wf(),
                it.projection() == proj,
                items@ + it.remaining() == all,
                forall|j: int| 0 <= j < items@.len() ==> has_key(proj, (#[trigger] items@[j]).1),
            ensures
                items@ == all,
                forall|j: int| 0 <= j < items@.len() ==> has_key(proj, (#[trigger] items@[j]).1),
            decreases it.remaining().len(),
        {
            let ghost before = items@;
            let ghost rest = it.remaining();
            match it.next() {
                Some(item) => {
                    items.push(item);
                    proof {
                        assert(items@ + it.remaining() =~= before + rest);
                    }
                },
                None => {
                    proof {
                        assert(items@ =~= before + rest);
                    }
                    break ;
                },
            }
        }
        items
    }
}

impl<'a, I: Walk<Item = A>, A, R: PartialEq, F: Fn(&A) -> R> Walk for UniqEnumerateProjIter<
    'a,
    I,
    A,
    F,
> {
    type Item = (usize, A);

    open spec fn wf(&self) -> bool {
        &&& R::obeys_eq_spec()
        &&& is_projection::<A, R, F>(self.projection())
        &&& self.inner().wf()
        &&& in_range(self.run(), self.held(), self.inner().remaining())
    }

    open spec fn remaining(&self) -> Seq<(usize, A)> {
        pending(
            self.run(),
            self.held(),
            self.inner().remaining(),
            same_key::<A, R, F>(self.projection()),
        )
    }

    proof fn remaining_is_countable(&self) {
    }

    fn next(&mut self) -> (item: Option<(usize, A)>)
        ensures
            final(self).projection() == old(self).projection(),
            item matches Some((_, x)) ==> has_key(old(self).projection(), x),
    {
        if self.last.is_some() {
            let ix = self.ix;
            let ghost held = self.last->0;
            let ghost rest = self.inner_iter.remaining();
            proof {
                lemma_numbered_unfold(held, rest, same_key::<A, R, F>(self.proj), ix as nat);
            }
            let maybe_next = self.inner_iter.next();
            let key_last = match &self.last {
                Some(a) => Some((self.proj)(a)),
                None => None,
            };
            let key_next = match &maybe_next {
                Some(b) => Some((self.proj)(b)),
                None => None,
            };
            let is_eq = key_last == key_next;
            if !is_eq {
                self.ix = self.ix + 1;
            }
            let res = self.last.take();
            self.last = maybe_next;
            proof {
                if rest.len() > 0 {
                    assert(seq![rest[0]] + rest.drop_first() =~= rest);
                }
            }
            match res {
                Some(x) => Some((ix, x)),
                None => None,
            }
        } else {
            None
        }
    }
}

/// Numbers the items of `iter` from zero by runs of items to which `f`
/// gives equal keys.
pub fn enumerate_proj<'a, I: Walk<Item = A>, A, R: PartialEq, F: Fn(&A) -> R>(
    iter: &'a mut I,
    f: F,
) -> (it: UniqEnumerateProjIter<'a, I, A, F>)
    requires
        old(iter).wf(),
    ensures
        it.wf() <==> R::obeys_eq_spec() && is_projection::<A, R, F>(f),
        it.remaining() == numbered(old(iter).remaining(), same_key::<A, R, F>(f), 0),
        it.projection() == f,
        it.held() == head(old(iter).remaining()),
        it.inner().remaining() == tail(old(iter).remaining()),
        it.run() == 0,
{
    let ghost all = iter.remaining();
    proof {
        iter.remaining_is_countable();
    }
    let next = iter.next();
    proof {
        if all.len() > 0 {
            assert(seq![all[0]] + all.drop_first() =~= all);
        } else {
            assert(numbered(all, same_key::<A, R, F>(f), 0) =~= Seq::<(usize, A)>::empty());
        }
    }
    UniqEnumerateProjIter { inner_iter: iter, last: next, ix: 0, proj: f }
}

} // verus!
