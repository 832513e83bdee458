//! The log of a practice: one outcome per recorded keystroke.

use vstd::prelude::*;

verus! {

/// An append-only sequence of outcomes, indexed by position; `true` where
/// the expected touch was typed.
#[derive(Clone, Debug, Default)]
pub struct Attempt {
    touches: Vec<bool>,
}

impl View for Attempt {
    type V = Seq<bool>;

    closed spec fn view(&self) -> Seq<bool> {
        self.touches@
    }
}

/// The outcome recorded at position `i` of a log, if there is one.
pub open spec fn recorded(log: Seq<bool>, i: int) -> Option<bool> {
    if 0 <= i < log.len() {
        Some(log[i])
    } else {
        None
    }
}

/// Number of successful keystrokes in a log.
pub open spec fn successes(log: Seq<bool>) -> nat
    decreases log.len(),
{
    if log.len() == 0 {
        0
    } else {
        successes(log.drop_last()) + if log.last() {
            1nat
        } else {
            0nat
        }
    }
}

/// No log holds more successes than keystrokes.
pub proof fn lemma_successes_bounded(log: Seq<bool>)
    ensures
        successes(log) <= log.len(),
    decreases log.len(),
{
    if log.len() > 0 {
        lemma_successes_bounded(log.drop_last());
    }
}

impl Attempt {
    /// The empty log.
    pub fn new() -> (attempt: Attempt)
        ensures
            attempt@ == Seq::<bool>::empty(),
    {
        Attempt { touches: Vec::new() }
    }

    /// Appends one outcome.
    pub fn add(&mut self, success: bool)
        ensures
            final(self)@ == old(self)@.push(success),
    {
        self.touches.push(success);
    }

    /// The outcome at position `i`, or `None` where nothing is recorded yet.
    pub fn get(&self, i: usize) -> (outcome: Option<&bool>)
        ensures
            outcome == match recorded(self@, i as int) {
                Some(b) => Some(&b),
                None => None,
            },
    {
        if i < self.touches.len() {
            Some(&self.touches[i])
        } else {
            None
        }
    }

    /// Number of recorded outcomes.
    pub fn len(&self) -> (n: usize)
        ensures
            n == self@.len(),
    {
        self.touches.len()
    }

    /// Number of recorded successes.
    pub fn succeeded(&self) -> (n: usize)
        ensures
            n == successes(self@),
    {
        let mut n: usize = 0;
        let mut i: usize = 0;
        while i < self.touches.len()
            invariant
                0 <= i <= self.touches@.len(),
                n == successes(self.touches@.take(i as int)),
                n <= i,
            decreases self.touches@.len() - i,
        {
            proof {
                assert(self.touches@.take(i + 1).drop_last() =~= self.touches@.take(i as int));
            }
            if self.touches[i] {
                n = n + 1;
            }
            i = i + 1;
        }
        proof {
            assert(self.touches@.take(i as int) =~= self.touches@);
        }
        n
    }
}

} // verus!
