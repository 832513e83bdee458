//! Making a challenge by drawing words at random from a word list, each
//! word with a chance in proportion to its count.

use vstd::prelude::*;
use rand::rngs::ThreadRng;
use crate::challenge::{lemma_flat_len, start, Challenge};
use crate::error::{TouchTypingError, WeightsError};
use crate::frequency::{entries_of, entry_counts, entry_words, lines_of, parse_frequencies};
use crate::practice::Practice;
use crate::render::{decimal, push_decimal, push_str, string_from_chars};
use crate::sampler::{draw, new_sampler, total, total_weight, weights_of};
use crate::text::words_view;
use crate::word::Word;

verus! {

/// The words that a list of picks selects from a vocabulary.
pub open spec fn picked(vocabulary: Seq<Seq<char>>, picks: Seq<usize>) -> Seq<Seq<char>> {
    Seq::new(picks.len(), |i: int| vocabulary[picks[i] as int])
}

/// No word is longer than `limit`.
pub open spec fn within(words: Seq<Seq<char>>, limit: nat) -> bool {
    forall|i: int| 0 <= i < words.len() ==> (#[trigger] words[i]).len() <= limit
}

/// Words of bounded length start at bounded positions.
pub proof fn lemma_start_bounded(words: Seq<Seq<char>>, k: int, limit: nat)
    requires
        within(words, limit),
        0 <= k <= words.len(),
    ensures
        start(words, k) <= k * (limit + 1),
    decreases k,
{
    if k > 0 {
        lemma_start_bounded(words, k - 1, limit);
        assert(words[k - 1].len() <= limit);
        assert((k - 1) * (limit + 1) + limit + 1 == k * (limit + 1)) by (nonlinear_arith);
    }
}

/// The name of a practice started `secs` seconds after the epoch.
pub open spec fn practice_name(secs: u64) -> Seq<char> {
    "practice_"@ + decimal(secs as nat) + ".txt"@
}

/// What holds of a challenge of `size` words made at random from the word
/// list `text`, and of the errors that can come instead. Which words come
/// out is left to chance; each is a word of the list with a count above
/// zero. A list without entries, counts that do not add up in 32 bits, a
/// list of zero counts and a size of zero are refused, each with its own
/// error; no other input is refused unless the challenge would be too long,
/// which cannot happen where `size` words of the longest length fit.
pub open spec fn generated(
    text: Seq<char>,
    size: usize,
    outcome: Result<Challenge, TouchTypingError>,
) -> bool {
    let entries = entries_of(lines_of(text));
    let words = entry_words(entries);
    let counts = entry_counts(entries);
    if entries.len() == 0 {
        outcome matches Err(e) && e == TouchTypingError::Weights(WeightsError::NoItem)
    } else if total(counts) > u32::MAX {
        outcome matches Err(e) && e == TouchTypingError::Weights(WeightsError::InvalidWeight)
    } else if total(counts) == 0 {
        outcome matches Err(e) && e == TouchTypingError::Weights(WeightsError::AllWeightsZero)
    } else if size == 0 {
        outcome matches Err(e) && e == TouchTypingError::NoWordAsked
    } else {
        match outcome {
            Ok(c) => {
                &&& c@.len() == size
                &&& forall|i: int|
                    0 <= i < size ==> exists|j: int|
                        0 <= j < entries.len() && entries[j].1 > 0 && #[trigger] c@[i]
                            == #[trigger] words[j]
            },
            Err(e) => {
                &&& e == TouchTypingError::TooLong
                &&& forall|limit: nat| #[trigger]
                    within(words, limit) ==> size * (limit + 1) > usize::MAX
            },
        }
    }
}

impl Challenge {
    /// The challenge made of the words of `vocabulary` at the indices
    /// `picks`, in the order of the picks.
    pub fn from_picks(vocabulary: &Vec<Word>, picks: &Vec<usize>) -> (challenge: Result<
        Challenge,
        TouchTypingError,
    >)
        requires
            forall|i: int| 0 <= i < picks@.len() ==> (#[trigger] picks@[i]) < vocabulary@.len(),
        ensures
            challenge is Ok <==> Self::admits(picked(words_view(vocabulary@), picks@)),
            challenge matches Ok(c) ==> c.wf() && c@ == picked(words_view(vocabulary@), picks@),
            challenge matches Err(e) ==> e == (if picks@.len() == 0 {
                TouchTypingError::NoWordAsked
            } else {
                TouchTypingError::TooLong
            }),
    {
        let mut words: Vec<Word> = Vec::new();
        let mut i: usize = 0;
        while i < picks.len()
            invariant
                0 <= i <= picks@.len(),
                forall|j: int| 0 <= j < picks@.len() ==> (#[trigger] picks@[j]) < vocabulary@.len(),
                words_view(words@) == picked(words_view(vocabulary@), picks@.take(i as int)),
            decreases picks@.len() - i,
        {
            let ghost seen = words_view(words@);
            let word = vocabulary[picks[i]].duplicate();
            words.push(word);
            proof {
                assert(words_view(words@) =~= seen.push(word@));
                assert(words_view(words@) =~= picked(
                    words_view(vocabulary@),
                    picks@.take(i + 1),
                ));
            }
            i = i + 1;
        }
        proof {
            assert(picks@.take(i as int) =~= picks@);
        }
        if picks.len() == 0 {
            Err(TouchTypingError::NoWordAsked)
        } else if Self::fits(&words) {
            Ok(Self::from(words))
        } else {
            Err(TouchTypingError::TooLong)
        }
    }

    /// A random challenge of `size` words from the word list `text`, in the
    /// format of `frequency`. A word is drawn with a chance in proportion to
    /// its count, and may be drawn more than once.
    pub fn generate(rng: &mut ThreadRng, size: usize, text: &str) -> (challenge: Result<
        Challenge,
        TouchTypingError,
    >)
        ensures
            generated(text@, size, challenge),
            challenge matches Ok(c) ==> c.wf(),
    {
        let (words, counts) = parse_frequencies(text);
        let ghost entries = entries_of(lines_of(text@));
        proof {
            assert(words_view(words@).len() == words@.len());
            assert(entry_words(entries).len() == entries.len());
            assert(entry_counts(entries).len() == entries.len());
        }
        if total_weight(&counts).is_none() {
            return Err(TouchTypingError::Weights(WeightsError::InvalidWeight));
        }
        let sampler = match new_sampler(&counts) {
            Ok(sampler) => sampler,
            Err(e) => {
                return Err(TouchTypingError::Weights(e));
            },
        };
        let mut picks: Vec<usize> = Vec::new();
        let mut i: usize = 0;
        while i < size
            invariant
                0 <= i <= size,
                picks@.len() == i,
                weights_of(&sampler) == counts@,
                counts@.len() == words@.len(),
                forall|j: int|
                    0 <= j < i ==> (#[trigger] picks@[j]) < words@.len() && counts@[picks@[j] as int]
                        > 0,
            decreases size - i,
        {
            let index = draw(&sampler, rng);
            picks.push(index);
            i = i + 1;
        }
        let challenge = Self::from_picks(&words, &picks);
        proof {
            let chosen = picked(words_view(words@), picks@);
            if challenge is Ok {
                let c = challenge->Ok_0;
                assert forall|k: int| 0 <= k < size implies exists|j: int|
                    0 <= j < entries.len() && entries[j].1 > 0 && #[trigger] c@[k]
                        == #[trigger] entry_words(entries)[j] by {
                    let j = picks@[k] as int;
                    assert(entry_counts(entries)[j] == entries[j].1);
                    assert(c@[k] == entry_words(entries)[j]);
                }
            } else if size > 0 {
                assert forall|limit: nat| #[trigger]
                    within(entry_words(entries), limit) implies size * (limit + 1)
                    > usize::MAX by {
                    assert forall|k: int| 0 <= k < chosen.len() implies (#[trigger] chosen[k]).len()
                        <= limit by {
                        assert(chosen[k] == entry_words(entries)[picks@[k] as int]);
                    }
                    lemma_start_bounded(chosen, size as int, limit);
                    lemma_flat_len(chosen);
                }
            }
        }
        challenge
    }
}

impl Practice {
    /// A practice of a random challenge, as `Challenge::generate` makes it,
    /// named after the time `now_secs`, in seconds since the epoch.
    pub fn generate(rng: &mut ThreadRng, size: usize, text: &str, now_secs: u64) -> (practice:
        Result<Practice, TouchTypingError>)
        ensures
            generated(
                text@,
                size,
                match practice {
                    Ok(p) => Ok(p.challenge()),
                    Err(e) => Err(e),
                },
            ),
            practice matches Ok(p) ==> {
                &&& p.wf()
                &&& p@.cursor == 0
                &&& p@.attempt == Seq::<bool>::empty()
                &&& p.label() == practice_name(now_secs)
            },
    {
        match Challenge::generate(rng, size, text) {
            Ok(challenge) => {
                let mut name: Vec<char> = Vec::new();
                push_str(&mut name, "practice_");
                push_decimal(&mut name, now_secs);
                push_str(&mut name, ".txt");
                Ok(Practice::new(challenge, string_from_chars(&name)))
            },
            Err(e) => Err(e),
        }
    }
}

/// What is needed to make one practice after the other.
pub struct PracticeGenerator<R> {
    /// Random number generator.
    rng: R,
    /// Size in number of words.
    size: usize,
    /// Path of the word list.
    path: String,
}

impl<R> PracticeGenerator<R> {
    /// The size of the practices, in words.
    pub closed spec fn words(&self) -> usize {
        self.size
    }

    /// The path of the word list.
    pub closed spec fn source(&self) -> Seq<char> {
        self.path@
    }

    /// A generator of practices of `size` words from the word list at
    /// `path`.
    pub fn new(rng: R, size: usize, path: &str) -> (generator: PracticeGenerator<R>)
        ensures
            generator.words() == size,
            generator.source() == path@,
    {
        PracticeGenerator { rng, size, path: path.to_string() }
    }

    /// The path of the word list.
    pub fn path(&self) -> (path: &String)
        ensures
            path@ == self.source(),
    {
        &self.path
    }

    /// The size of the practices, in words.
    pub fn size(&self) -> (size: usize)
        ensures
            size == self.words(),
    {
        self.size
    }
}

impl PracticeGenerator<ThreadRng> {
    /// A new practice from the word list `text`, read from the path of the
    /// generator, at the time `now_secs`.
    pub fn generate(&mut self, text: &str, now_secs: u64) -> (practice: Result<
        Practice,
        TouchTypingError,
    >)
        ensures
            final(self).words() == old(self).words(),
            final(self).source() == old(self).source(),
            generated(
                text@,
                old(self).words(),
                match practice {
                    Ok(p) => Ok(p.challenge()),
                    Err(e) => Err(e),
                },
            ),
            practice matches Ok(p) ==> {
                &&& p.wf()
                &&& p@.cursor == 0
                &&& p@.attempt == Seq::<bool>::empty()
                &&& p.label() == practice_name(now_secs)
            },
    {
        Practice::generate(&mut self.rng, self.size, text, now_secs)
    }
}

} // verus!
