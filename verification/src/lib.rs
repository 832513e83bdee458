//! Typing practice: a text to type, the progress of typing it, and what
//! each position looks like on screen.
//!
//! A [`challenge::Challenge`] is the text, a [`practice::Practice`] is a
//! challenge with a cursor and a log of outcomes, and a [`walk::Walk`] hands
//! out the positions of either one by one. [`run_enumerate`] and
//! [`uniq_enumerate`] number the items of a walk by runs, which is how
//! positions are grouped into lines. [`generate`] makes challenges at random
//! from a word list in the format of [`frequency`].
//!
//! Every function states what it returns over a mathematical model of its
//! arguments, and the statement is proved.

pub mod error;
pub mod touch;
pub mod word;
pub mod text;
pub mod render;
pub mod frequency;
pub mod sampler;
pub mod walk;
pub mod challenge;
pub mod attempt;
pub mod practice;
pub mod runs;
pub mod run_enumerate;
pub mod uniq_enumerate;
pub mod generate;
pub mod session;
pub mod stats;
pub mod utils;
