//! A challenge in progress: the cursor, the log of outcomes and the display
//! state of every position.

use vstd::prelude::*;
use crate::attempt::{recorded, successes, Attempt};
use crate::challenge::{lemma_tagged_steps, CIter, Challenge, WordIndex};
use crate::run_enumerate::run_enumerate_with;
use crate::runs::{
    has_key, lemma_run_index_bounded, lemma_run_index_congruent, run_index, same_key,
};
use crate::render::{decimal, push_decimal, push_str, string_from_chars};
use crate::touch::{Touch, TouchState};
use crate::walk::{tail, Walk};

verus! {

/// The mathematical state of a practice.
pub struct Progress {
    /// The flat text to type.
    pub text: Seq<Touch>,
    /// The outcomes recorded so far.
    pub attempt: Seq<bool>,
    /// The next expected flat position.
    pub cursor: nat,
}

impl Progress {
    /// One outcome per position before the cursor, and the cursor within
    /// the text or right behind it.
    pub open spec fn wf(self) -> bool {
        self.cursor == self.attempt.len() && self.cursor <= self.text.len()
    }

    /// Nothing is left to type.
    pub open spec fn terminal(self) -> bool {
        self.cursor == self.text.len()
    }

    /// The touch awaited at the cursor, if any.
    pub open spec fn expected(self) -> Option<Touch> {
        if self.cursor < self.text.len() {
            Some(self.text[self.cursor as int])
        } else {
            None
        }
    }

    /// Whether `touch` is the awaited one; `None` once nothing is awaited.
    pub open spec fn check(self, touch: Touch) -> Option<bool> {
        match self.expected() {
            Some(e) => Some(e == touch),
            None => None,
        }
    }

    /// The state after `touch` was pressed: the outcome is logged and the
    /// cursor moves on, unless nothing is awaited.
    pub open spec fn press(self, touch: Touch) -> Progress {
        match self.check(touch) {
            Some(success) => Progress {
                text: self.text,
                attempt: self.attempt.push(success),
                cursor: self.cursor + 1,
            },
            None => self,
        }
    }

    /// The state after a series of presses.
    pub open spec fn press_all(self, touches: Seq<Touch>) -> Progress
        decreases touches.len(),
    {
        if touches.len() == 0 {
            self
        } else {
            self.press_all(touches.drop_last()).press(touches.last())
        }
    }

    /// The display state of position `ix`, from the cursor and the log alone.
    pub open spec fn state(self, ix: int) -> TouchState {
        if ix == self.cursor {
            TouchState::Current(self.cursor == 0)
        } else if ix == self.cursor + 1 {
            if self.cursor == 0 {
                TouchState::Future
            } else {
                TouchState::Next
            }
        } else if ix > self.cursor + 1 {
            TouchState::Future
        } else {
            TouchState::Attempted(self.attempt[ix])
        }
    }
}

/// Pressing keeps a practice well formed.
pub proof fn lemma_press_preserves_wf(p: Progress, touch: Touch)
    requires
        p.wf(),
    ensures
        p.press(touch).wf(),
        p.press(touch).text == p.text,
{
}

/// In the terminal state every press answers `None` and changes nothing,
/// however often it is repeated.
pub proof fn lemma_terminal_press_changes_nothing(p: Progress, touches: Seq<Touch>)
    requires
        p.wf(),
        p.terminal(),
    ensures
        p.press_all(touches) == p,
        forall|i: int|
            0 <= i < touches.len() ==> (#[trigger] p.press_all(touches.take(i))).check(touches[i])
                is None,
    decreases touches.len(),
{
    if touches.len() > 0 {
        lemma_terminal_press_changes_nothing(p, touches.drop_last());
    }
    assert forall|i: int| 0 <= i < touches.len() implies (#[trigger] p.press_all(
        touches.take(i),
    )).check(touches[i]) is None by {
        lemma_terminal_press_changes_nothing(p, touches.take(i));
    }
}

/// The log holds an outcome exactly for the positions before the cursor.
pub proof fn lemma_recorded_before_cursor(p: Progress, ix: int)
    requires
        p.wf(),
        0 <= ix,
    ensures
        ix < p.cursor <==> recorded(p.attempt, ix) is Some,
{
}

/// Typing the whole text without a mistake, from the start: every press
/// succeeds and the practice ends in its terminal state.
pub proof fn lemma_perfect_run(p: Progress, n: int)
    requires
        p.wf(),
        p.cursor == 0,
        0 <= n <= p.text.len(),
    ensures
        p.press_all(p.text.take(n)).cursor == n,
        p.press_all(p.text.take(n)).text == p.text,
        p.press_all(p.text.take(n)).attempt == Seq::new(n as nat, |i: int| true),
        successes(p.press_all(p.text.take(n)).attempt) == n,
    decreases n,
{
    if n > 0 {
        lemma_perfect_run(p, n - 1);
        assert(p.text.take(n).drop_last() =~= p.text.take(n - 1));
        let before = p.press_all(p.text.take(n - 1));
        let after = p.press_all(p.text.take(n));
        assert(after == before.press(p.text[n - 1]));
        assert(after.attempt =~= Seq::new(n as nat, |i: int| true));
        assert(after.attempt.drop_last() =~= before.attempt);
    } else {
        assert(p.attempt =~= Seq::new(0nat, |i: int| true));
    }
}

/// The text that records a result of `total` keystrokes, `succ` of them
/// successful: two lines.
pub open spec fn report_text(total: nat, succ: nat) -> Seq<char> {
    "total = "@ + decimal(total) + "\n"@ + "succ = "@ + decimal(succ) + "\n"@
}

/// A challenge with a cursor and a log of outcomes.
#[derive(Clone, Debug)]
pub struct Practice {
    challenge: Challenge,
    attempt: Attempt,
    name: String,
    /// Index of the next touch in the challenge; its length once done.
    cursor: usize,
}

impl View for Practice {
    type V = Progress;

    closed spec fn view(&self) -> Progress {
        Progress { text: self.challenge.text(), attempt: self.attempt@, cursor: self.cursor as nat }
    }
}

/// A walk over the positions of a practice, each with its display state.
pub struct PIter<'a> {
    practice: &'a Practice,
    challenge_iter: CIter<'a>,
}

/// The touches of a practice from position `from` on, each with its display
/// state and its word index.
pub open spec fn display(
    p: Progress,
    touches: Seq<(Touch, WordIndex)>,
    from: int,
) -> Seq<(Touch, TouchState, WordIndex)> {
    Seq::new(
        (touches.len() - from) as nat,
        |k: int| (touches[from + k].0, p.state(from + k), touches[from + k].1),
    )
}

/// A position on screen: the touch, its display state and its word index.
pub type Cell = (Touch, TouchState, WordIndex);

/// Two cells stand on the same line when their words do, with
/// `words_per_line` words to a line.
pub open spec fn same_line(words_per_line: usize) -> spec_fn(Cell, Cell) -> bool {
    |a: Cell, b: Cell| a.2 / words_per_line == b.2 / words_per_line
}

/// From one position to the next the quotient of the word index stays or
/// grows by one, as the word index does.
proof fn lemma_quotient_steps(w: int, d: int)
    requires
        0 <= w,
        0 < d,
    ensures
        (w + 1) / d == w / d || (w + 1) / d == w / d + 1,
        w / d == (w + 1) / d <==> (w + 1) % d != 0,
{
    assert((w + 1) / d == w / d || (w + 1) / d == w / d + 1) by (nonlinear_arith)
        requires
            0 <= w,
            0 < d,
    ;
    assert(w / d == (w + 1) / d <==> (w + 1) % d != 0) by (nonlinear_arith)
        requires
            0 <= w,
            0 < d,
    ;
}

/// Numbering the cells of a practice by lines gives each cell the line of
/// its word: the word index divided by the number of words per line.
pub proof fn lemma_line_numbers(
    p: Progress,
    touches: Seq<(Touch, WordIndex)>,
    text: Seq<Touch>,
    words_per_line: usize,
    i: int,
)
    requires
        touches == crate::challenge::tagged(text),
        text.len() <= usize::MAX,
        words_per_line > 0,
        0 <= i < text.len(),
    ensures
        run_index(display(p, touches, 0), same_line(words_per_line), i) == display(
            p,
            touches,
            0,
        )[i].2 / words_per_line,
    decreases i,
{
    let cells = display(p, touches, 0);
    lemma_tagged_steps(text, i);
    if i > 0 {
        lemma_line_numbers(p, touches, text, words_per_line, i - 1);
        lemma_tagged_steps(text, i - 1);
        lemma_quotient_steps(cells[i - 1].2 as int, words_per_line as int);
    }
}

impl Practice {
    /// The challenge being typed.
    pub closed spec fn challenge(&self) -> Challenge {
        self.challenge
    }

    /// The identifier given at construction.
    pub closed spec fn label(&self) -> Seq<char> {
        self.name@
    }

    /// The challenge and the cursor/log state are well formed.
    pub open spec fn wf(&self) -> bool {
        self.challenge().wf() && self@.wf() && self@.text == self.challenge().text()
    }

    /// A practice of `challenge` at its start.
    pub fn new(challenge: Challenge, name: String) -> (practice: Practice)
        requires
            challenge.wf(),
        ensures
            practice.wf(),
            practice.challenge() == challenge,
            practice.label() == name@,
            practice@.cursor == 0,
            practice@.attempt == Seq::<bool>::empty(),
    {
        Practice { challenge, attempt: Attempt::new(), name, cursor: 0 }
    }

    /// The identifier given at construction.
    pub fn name<'a>(&'a self) -> (name: &'a String)
        ensures
            name@ == self.label(),
    {
        &self.name
    }

    /// The log of outcomes.
    pub fn attempt(&self) -> (attempt: &Attempt)
        ensures
            attempt@ == self@.attempt,
    {
        &self.attempt
    }

    /// The next expected flat position.
    pub fn cursor(&self) -> (cursor: usize)
        ensures
            cursor == self@.cursor,
    {
        self.cursor
    }

    /// Number of touches of the challenge.
    pub fn len(&self) -> (n: usize)
        requires
            self.wf(),
        ensures
            n == self@.text.len(),
    {
        self.challenge.len()
    }

    /// The touch awaited at the cursor, or `None` once the challenge is
    /// done.
    pub fn expected(&self) -> (touch: Option<Touch>)
        requires
            self.wf(),
        ensures
            touch == self@.expected(),
    {
        self.challenge.expected_at(self.cursor)
    }

    /// Number of keystrokes recorded, and how many of them succeeded.
    pub fn score(&self) -> (score: (usize, usize))
        ensures
            score.0 == self@.attempt.len(),
            score.1 == successes(self@.attempt),
    {
        (self.attempt.len(), self.attempt.succeeded())
    }

    /// The result to be saved: the number of keystrokes and the number of
    /// successes, one line each.
    pub fn report(&self) -> (text: String)
        ensures
            text@ == report_text(self@.attempt.len(), successes(self@.attempt)),
    {
        let (total, succ) = self.score();
        let mut out: Vec<char> = Vec::new();
        push_str(&mut out, "total = ");
        push_decimal(&mut out, total as u64);
        push_str(&mut out, "\n");
        push_str(&mut out, "succ = ");
        push_decimal(&mut out, succ as u64);
        push_str(&mut out, "\n");
        string_from_chars(&out)
    }

    /// Whether `touch` is the expected one, or `None` if no more touches
    /// are expected.
    pub fn check(&self, touch: &Touch) -> (outcome: Option<bool>)
        requires
            self.wf(),
        ensures
            outcome == self@.check(*touch),
            outcome is None <==> self@.terminal(),
    {
        match self.expected() {
            Some(e) => Some(e == *touch),
            None => None,
        }
    }

    /// Records the attempt of pressing `touch`. Returns whether it was the
    /// expected one; if no touch is expected, returns `None` and changes
    /// nothing.
    pub fn press(&mut self, touch: &Touch) -> (outcome: Option<bool>)
        requires
            old(self).wf(),
        ensures
            final(self).wf(),
            outcome == old(self)@.check(*touch),
            final(self)@ == old(self)@.press(*touch),
            final(self).challenge() == old(self).challenge(),
            final(self).label() == old(self).label(),
            outcome is None ==> *final(self) == *old(self),
    {
        proof {
            self.challenge.lemma_text_is_countable();
        }
        match self.check(touch) {
            Some(success) => {
                self.attempt.add(success);
                self.cursor = self.cursor + 1;
                Some(success)
            },
            None => None,
        }
    }

    /// All positions, each with its line on a screen that shows
    /// `words_per_line` words to a line.
    pub fn lines(&self, words_per_line: usize) -> (cells: Vec<(usize, Cell)>)
        requires
            self.wf(),
            words_per_line > 0,
        ensures
            cells@.len() == self@.text.len(),
            forall|i: int|
                0 <= i < cells@.len() ==> (#[trigger] cells@[i]).1 == display(
                    self@,
                    self.challenge().touches(),
                    0,
                )[i] && cells@[i].0 == cells@[i].1.2 / words_per_line,
    {
        let proj = |x: &Cell| -> (line: usize)
            ensures
                line == x.2 / words_per_line,
            { x.2 / words_per_line };
        let ghost shown = display(self@, self.challenge().touches(), 0);
        let it = run_enumerate_with(self.iter(), proj);
        proof {
            self.challenge().lemma_text_is_countable();
        }
        let cells = it.collect();
        proof {
            assert forall|j: int| 0 <= j < shown.len() implies has_key(proj, #[trigger] shown[j]) by {
                assert(cells@[j].1 == shown[j]);
            }
            assert forall|j: int| 0 < j < shown.len() implies same_key::<Cell, usize, _>(proj)(
                #[trigger] shown[j - 1],
                shown[j],
            ) == same_line(words_per_line)(shown[j - 1], shown[j]) by {
                assert(has_key(proj, shown[j - 1]));
                assert(has_key(proj, shown[j]));
            }
            assert forall|i: int| 0 <= i < cells@.len() implies (#[trigger] cells@[i]).1
                == shown[i] && cells@[i].0 == cells@[i].1.2 / words_per_line by {
                lemma_run_index_congruent(
                    shown,
                    same_key::<Cell, usize, _>(proj),
                    same_line(words_per_line),
                    i,
                );
                lemma_line_numbers(
                    self@,
                    self.challenge().touches(),
                    self@.text,
                    words_per_line,
                    i,
                );
                lemma_run_index_bounded(shown, same_line(words_per_line), i);
            }
        }
        cells
    }

    /// A walk over all positions with their display states.
    pub fn iter<'a>(&'a self) -> (it: PIter<'a>)
        requires
            self.wf(),
        ensures
            it.wf(),
            it.practice() == *self,
            it.position() == 0,
            it.remaining() == display(self@, self.challenge().touches(), 0),
            it.remaining().len() == self@.text.len(),
    {
        PIter::new(self)
    }
}

impl<'a> PIter<'a> {
    /// The practice that is walked.
    pub closed spec fn practice(&self) -> Practice {
        *self.practice
    }

    /// The walk over the challenge underneath.
    pub closed spec fn touches(&self) -> CIter<'a> {
        self.challenge_iter
    }

    /// The position that `next` hands out next.
    pub open spec fn position(&self) -> int {
        self.touches().position()
    }

    /// The display state of the position that `next` hands out next.
    pub fn state(&self) -> (state: TouchState)
        requires
            self.wf(),
        ensures
            state == self.practice()@.state(self.position()),
    {
        let ix = self.challenge_iter.ix();
        let cursor = self.practice.cursor;
        if ix == cursor {
            TouchState::Current(cursor == 0)
        } else if ix > cursor {
            if ix - cursor > 1 || cursor == 0 {
                TouchState::Future
            } else {
                TouchState::Next
            }
        } else {
            match self.practice.attempt.get(ix) {
                Some(b) => TouchState::Attempted(*b),
                None => unreached(),
            }
        }
    }

    /// A walk over `practice` from its first position.
    pub fn new(practice: &'a Practice) -> (it: PIter<'a>)
        requires
            practice.wf(),
        ensures
            it.wf(),
            it.practice() == *practice,
            it.position() == 0,
            it.remaining() == display(practice@, practice.challenge().touches(), 0),
            it.remaining().len() == practice@.text.len(),
    {
        PIter { practice, challenge_iter: practice.challenge.iter() }
    }
}

impl<'a> Walk for PIter<'a> {
    type Item = (Touch, TouchState, WordIndex);

    open spec fn wf(&self) -> bool {
        &&& self.practice().wf()
        &&& self.touches().wf()
        &&& self.touches().challenge() == self.practice().challenge()
    }

    open spec fn remaining(&self) -> Seq<(Touch, TouchState, WordIndex)> {
        display(self.practice()@, self.practice().challenge().touches(), self.position())
    }

    proof fn remaining_is_countable(&self) {
        self.practice().challenge().lemma_text_is_countable();
    }

    fn next(&mut self) -> (item: Option<(Touch, TouchState, WordIndex)>)
        ensures
            final(self).practice() == old(self).practice(),
            final(self).position() == old(self).position() + if item is Some {
                1int
            } else {
                0int
            },
    {
        let state = self.state();
        let ghost before = self.remaining();
        let item = match self.challenge_iter.next() {
            Some((t, w)) => Some((t, state, w)),
            None => None,
        };
        proof {
            assert(self.remaining() =~= tail(before));
        }
        item
    }
}

} // verus!
