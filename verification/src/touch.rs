//! The unit of typing: a character or a space.

use vstd::prelude::*;

verus! {

/// One expected or typed input unit. A space is kept apart from every other
/// character.
#[derive(Clone, Copy, Debug, PartialEq, Eq, PartialOrd, Structural)]
pub enum Touch {
    Char(char),
    Space,
}

/// What a position of a practice looks like relative to the cursor.
#[derive(Clone, Copy, Debug, PartialEq, Eq, Structural)]
pub enum TouchState {
    /// Already typed, successfully or not.
    Attempted(bool),
    /// The position awaiting input; the flag tells whether it is the very
    /// first position of the practice.
    Current(bool),
    /// The position right after the one awaiting input.
    Next,
    /// Any later position.
    Future,
}

impl Touch {
    /// The touch that typing `value` produces.
    pub open spec fn of_char(value: char) -> Touch {
        if value == ' ' {
            Touch::Space
        } else {
            Touch::Char(value)
        }
    }

    /// The text that a touch stands for.
    pub open spec fn text(self) -> Seq<char> {
        match self {
            Touch::Char(c) => seq![c],
            Touch::Space => seq![' '],
        }
    }

    /// The touch as a one-character string; a space for `Touch::Space`.
    pub fn to_string(&self) -> (s: String)
        ensures
            s@ == self.text(),
    {
        match self {
            Touch::Char(c) => char_to_string(*c),
            Touch::Space => char_to_string(' '),
        }
    }
}

impl From<char> for Touch {
    /// A space becomes `Touch::Space`, any other character `Touch::Char`.
    fn from(value: char) -> (touch: Touch) {
        if value == ' ' {
            Touch::Space
        } else {
            Touch::Char(value)
        }
    }
}

impl vstd::std_specs::convert::FromSpecImpl<char> for Touch {
    open spec fn obeys_from_spec() -> bool {
        true
    }

    open spec fn from_spec(value: char) -> Touch {
        Touch::of_char(value)
    }
}

/// `char::to_string` of std: the string made of that one character.
#[verifier::external_body]
fn char_to_string(c: char) -> (s: String)
    ensures
        s@ == seq![c],
{
    c.to_string()
}

} // verus!
