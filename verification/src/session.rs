//! One practice on screen: keys are pressed until the challenge is done,
//! then the practice is handed over once and further keys are ignored
//! until a new practice starts.

use vstd::prelude::*;
use crate::practice::Practice;
use crate::touch::Touch;

verus! {

/// What a key press did to a session.
#[derive(Clone, Copy, Debug, PartialEq, Eq, Structural)]
pub enum KeyOutcome {
    /// The session was over already; nothing changed.
    Ignored,
    /// The touch was recorded; the flag tells whether it was the expected
    /// one.
    Recorded(bool),
    /// No touch was expected any more: the practice is complete and is to
    /// be handed over.
    Finished,
}

/// A practice and whether it was handed over.
#[derive(Debug)]
pub struct Session {
    practice: Practice,
    saved: bool,
}

impl Session {
    /// The practice of the session.
    pub closed spec fn current(&self) -> Practice {
        self.practice
    }

    /// Whether the practice was handed over.
    pub closed spec fn is_saved(&self) -> bool {
        self.saved
    }

    /// The practice is well formed.
    pub open spec fn wf(&self) -> bool {
        self.current().wf()
    }

    /// A session that shows `practice`, not handed over.
    pub fn new(practice: Practice) -> (session: Session)
        requires
            practice.wf(),
        ensures
            session.wf(),
            session.current() == practice,
            !session.is_saved(),
    {
        Session { practice, saved: false }
    }

    /// The practice of the session.
    pub fn practice(&self) -> (practice: &Practice)
        ensures
            *practice == self.current(),
    {
        &self.practice
    }

    /// Whether the practice was handed over.
    pub fn saved(&self) -> (saved: bool)
        ensures
            saved == self.is_saved(),
    {
        self.saved
    }

    /// A new practice replaces the old one, and keys count again.
    pub fn start(&mut self, practice: Practice)
        requires
            practice.wf(),
        ensures
            final(self).wf(),
            final(self).current() == practice,
            !final(self).is_saved(),
    {
        self.saved = false;
        self.practice = practice;
    }

    /// A key was pressed. A session that is over ignores it. Otherwise the
    /// touch is pressed on the practice, and a practice that expects no
    /// touch ends the session.
    pub fn key_pressed(&mut self, touch: &Touch) -> (outcome: KeyOutcome)
        requires
            old(self).wf(),
        ensures
            final(self).wf(),
            final(self).current().challenge() == old(self).current().challenge(),
            final(self).current().label() == old(self).current().label(),
            old(self).is_saved() ==> outcome == KeyOutcome::Ignored && *final(self) == *old(self),
            !old(self).is_saved() ==> {
                &&& final(self).current()@ == old(self).current()@.press(*touch)
                &&& outcome == match old(self).current()@.check(*touch) {
                    Some(success) => KeyOutcome::Recorded(success),
                    None => KeyOutcome::Finished,
                }
                &&& final(self).is_saved() == (outcome == KeyOutcome::Finished)
            },
    {
        if self.saved {
            KeyOutcome::Ignored
        } else {
            match self.practice.press(touch) {
                Some(success) => KeyOutcome::Recorded(success),
                None => {
                    self.saved = true;
                    KeyOutcome::Finished
                },
            }
        }
    }
}

} // verus!
