//! Lazy walks over finite sequences.
//!
//! A walk hands out the items of a sequence one by one. What is still to come
//! is a mathematical sequence, `remaining`, and `next` removes its head.

use vstd::prelude::*;

verus! {

/// A finite sequence of items that is handed out one item at a time.
pub trait Walk {
    type Item;

    /// The walk is in a state that its constructor can produce.
    spec fn wf(&self) -> bool;

    /// The items that are still to come, in order.
    spec fn remaining(&self) -> Seq<Self::Item>;

    /// A well-formed walk never holds more items than an index can count.
    proof fn remaining_is_countable(&self)
        requires
            self.wf(),
        ensures
            self.remaining().len() <= usize::MAX,
    ;

    /// Hands out the head of `remaining`, or `None` once nothing is left;
    /// an exhausted walk stays exhausted.
    fn next(&mut self) -> (item: Option<Self::Item>)
        requires
            old(self).wf(),
        ensures
            final(self).wf(),
            item == head(old(self).remaining()),
            final(self).remaining() == tail(old(self).remaining()),
    ;
}

/// First item of a sequence, if it has one.
pub open spec fn head<T>(s: Seq<T>) -> Option<T> {
    if s.len() > 0 {
        Some(s[0])
    } else {
        None
    }
}

/// A sequence without its first item; the empty sequence stays empty.
pub open spec fn tail<T>(s: Seq<T>) -> Seq<T> {
    if s.len() > 0 {
        s.drop_first()
    } else {
        s
    }
}

/// A walk over the items of a vector, which it owns.
pub struct VecWalk<T> {
    /// The items to come, last one first.
    stack: Vec<T>,
}

impl<T> Walk for VecWalk<T> {
    type Item = T;

    open spec fn wf(&self) -> bool {
        true
    }

    closed spec fn remaining(&self) -> Seq<T> {
        self.stack@.reverse()
    }

    proof fn remaining_is_countable(&self) {
        assert(self.stack@.len() == self.stack.len());
    }

    fn next(&mut self) -> (item: Option<T>) {
        let item = self.stack.pop();
        proof {
            if old(self).stack@.len() > 0 {
                assert(self.stack@.reverse() =~= old(self).stack@.reverse().drop_first());
            }
        }
        item
    }
}

/// A walk that hands out the items of `items`, first one first.
pub fn walk<T>(items: Vec<T>) -> (w: VecWalk<T>)
    ensures
        w.wf(),
        w.remaining() == items@,
{
    let mut items = items;
    let ghost all = items@;
    let mut stack: Vec<T> = Vec::new();
    while items.len() > 0
        invariant
            items@ + stack@.reverse() == all,
        decreases items.len(),
    {
        let ghost before = items@;
        let ghost done = stack@;
        let item = items.pop().unwrap();
        stack.push(item);
        proof {
            assert(stack@.reverse() =~= seq![item] + done.reverse());
            assert(before =~= items@ + seq![item]);
            assert(items@ + stack@.reverse() =~= before + done.reverse());
        }
    }
    proof {
        assert(stack@.reverse() =~= items@ + stack@.reverse());
    }
    VecWalk { stack }
}

/// Runs a walk to its end and returns everything it handed out.
pub fn collect<W: Walk>(w: W) -> (items: Vec<W::Item>)
    requires
        w.wf(),
    ensures
        items@ == w.remaining(),
{
    let mut w = w;
    let ghost all = w.remaining();
    let mut items: Vec<W::Item> = Vec::new();
    loop
        invariant
            w.wf(),
            items@ + w.remaining() == all,
        ensures
            items@ == all,
        decreases w.remaining().len(),
    {
        let ghost before = items@;
        let ghost rest = w.remaining();
        match w.next() {
            Some(item) => {
                items.push(item);
                proof {
                    assert(items@ + w.remaining() =~= before + rest);
                }
            },
            None => {
                proof {
                    assert(items@ =~= before + rest);
                }
                break ;
            },
        }
    }
    items
}

} // verus!
