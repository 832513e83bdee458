//! A word of the text to type.

use vstd::prelude::*;

verus! {

/// An immutable sequence of characters.
#[derive(Clone, Debug)]
pub struct Word(Vec<char>);

impl View for Word {
    type V = Seq<char>;

    closed spec fn view(&self) -> Seq<char> {
        self.0@
    }
}

impl Word {
    /// The word made of the characters of `s`, in order.
    pub fn from(s: &str) -> (word: Word)
        ensures
            word@ == s@,
    {
        let mut chars: Vec<char> = Vec::new();
        for c in it: s.chars()
            invariant
                it.seq() == s@,
                chars@ == s@.take(it.index() as int),
        {
            chars.push(c);
            proof {
                assert(chars@ =~= s@.take(it.index() + 1));
            }
        }
        proof {
            assert(chars@ =~= s@);
        }
        Word(chars)
    }

    /// The word that holds exactly `chars`.
    pub fn from_chars(chars: Vec<char>) -> (word: Word)
        ensures
            word@ == chars@,
    {
        Word(chars)
    }

    /// Number of characters.
    pub fn len(&self) -> (n: usize)
        ensures
            n == self@.len(),
    {
        self.0.len()
    }

    /// The character at offset `i`, if the word is that long.
    pub fn char_at(&self, i: usize) -> (c: Option<char>)
        ensures
            c == (if i < self@.len() {
                Some(self@[i as int])
            } else {
                None
            }),
    {
        if i < self.0.len() {
            Some(self.0[i])
        } else {
            None
        }
    }

    /// A second word with the same characters.
    pub fn duplicate(&self) -> (word: Word)
        ensures
            word@ == self@,
    {
        Word(self.0.clone())
    }
}

} // verus!
