//! The text to type: a sequence of words, read as one flat sequence of
//! touches in which a single space separates neighbouring words.

use vstd::prelude::*;
use crate::text::{split_words, words_of, words_view};
use crate::touch::Touch;
use crate::walk::Walk;
use crate::word::Word;

verus! {

/// Index of a word within a challenge.
pub type WordIndex = usize;

/// The touch for a character of a word.
pub open spec fn letter(c: char) -> Touch {
    Touch::Char(c)
}

/// The characters of one word as touches.
pub open spec fn touches_of(word: Seq<char>) -> Seq<Touch> {
    Seq::new(word.len(), |i: int| letter(word[i]))
}

/// The flat text of a list of words: the words in order, one `Touch::Space`
/// between neighbours and none after the last word.
pub open spec fn flat(words: Seq<Seq<char>>) -> Seq<Touch>
    decreases words.len(),
{
    if words.len() == 0 {
        Seq::empty()
    } else if words.len() == 1 {
        touches_of(words[0])
    } else {
        flat(words.drop_last()).push(Touch::Space) + touches_of(words.last())
    }
}

/// Flat position of the first character of word `k`: every earlier word
/// takes its length and one separator.
pub open spec fn start(words: Seq<Seq<char>>, k: int) -> int
    decreases k,
{
    if k <= 0 {
        0
    } else {
        start(words, k - 1) + words[k - 1].len() + 1
    }
}

/// Number of `Touch::Space` items in a sequence of touches.
pub open spec fn spaces(touches: Seq<Touch>) -> nat
    decreases touches.len(),
{
    if touches.len() == 0 {
        0
    } else {
        spaces(touches.drop_last()) + if touches.last() == Touch::Space {
            1nat
        } else {
            0nat
        }
    }
}

/// The flat text with the word that each touch belongs to: the number of
/// separators before it, so that a separator counts for the word it follows.
pub open spec fn tagged(text: Seq<Touch>) -> Seq<(Touch, WordIndex)> {
    Seq::new(text.len(), |p: int| (text[p], spaces(text.take(p)) as usize))
}

/// `start` looks at the words before `k` only.
pub proof fn lemma_start_prefix(words: Seq<Seq<char>>, n: int, k: int)
    requires
        0 <= k <= n <= words.len(),
    ensures
        start(words.take(n), k) == start(words, k),
    decreases k,
{
    if k > 0 {
        lemma_start_prefix(words, n, k - 1);
    }
}

/// `start` grows by at least one from word to word.
pub proof fn lemma_start_increases(words: Seq<Seq<char>>, i: int, j: int)
    requires
        0 <= i <= j,
    ensures
        start(words, i) + (j - i) <= start(words, j),
    decreases j,
{
    if i < j {
        lemma_start_increases(words, i, j - 1);
    }
}

/// The flat text of `n >= 1` words is one shorter than where an `n + 1`-th
/// word would start.
pub proof fn lemma_flat_len(words: Seq<Seq<char>>)
    requires
        words.len() >= 1,
    ensures
        flat(words).len() == start(words, words.len() as int) - 1,
    decreases words.len(),
{
    let n = words.len() as int;
    if n > 1 {
        assert(words.drop_last() =~= words.take(n - 1));
        lemma_flat_len(words.drop_last());
        lemma_start_prefix(words, n - 1, n - 1);
    } else {
        assert(start(words, 0) == 0);
    }
}

/// What stands at offset `off` of word `k` in the flat text: the word's
/// character, or, right behind a word that is not the last, the separator.
pub proof fn lemma_flat_at(words: Seq<Seq<char>>, k: int, off: int)
    requires
        0 <= k < words.len(),
        0 <= off <= words[k].len(),
        off == words[k].len() ==> k + 1 < words.len(),
    ensures
        0 <= start(words, k) + off < flat(words).len(),
        flat(words)[start(words, k) + off] == (if off < words[k].len() {
            Touch::Char(words[k][off])
        } else {
            Touch::Space
        }),
    decreases words.len(),
{
    let n = words.len() as int;
    lemma_flat_len(words);
    lemma_start_increases(words, 0, k);
    lemma_start_increases(words, k + 1, n);
    if n == 1 {
        assert(start(words, 0) == 0);
    } else {
        let front = words.drop_last();
        assert(front =~= words.take(n - 1));
        lemma_flat_len(front);
        lemma_start_prefix(words, n - 1, n - 1);
        lemma_start_prefix(words, n - 1, k);
        if k == n - 1 {
        } else if off == words[k].len() && k == n - 2 {
        } else {
            lemma_flat_at(front, k, off);
        }
    }
}

/// Counting separators up to and including position `p`.
pub proof fn lemma_spaces_step(text: Seq<Touch>, p: int)
    requires
        0 <= p < text.len(),
    ensures
        spaces(text.take(p + 1)) == spaces(text.take(p)) + if text[p] == Touch::Space {
            1nat
        } else {
            0nat
        },
        spaces(text.take(p)) <= p,
    decreases p,
{
    assert(text.take(p + 1).drop_last() =~= text.take(p));
    if p > 0 {
        lemma_spaces_step(text, p - 1);
    }
}

/// Word indices start at zero and grow by one behind each separator.
pub proof fn lemma_tagged_steps(text: Seq<Touch>, p: int)
    requires
        0 <= p < text.len(),
        text.len() <= usize::MAX,
    ensures
        tagged(text)[p].0 == text[p],
        tagged(text)[p].1 == spaces(text.take(p)),
        p == 0 ==> tagged(text)[p].1 == 0,
        p > 0 ==> tagged(text)[p].1 == tagged(text)[p - 1].1 + if text[p - 1] == Touch::Space {
            1int
        } else {
            0int
        },
{
    lemma_spaces_step(text, p);
    if p > 0 {
        lemma_spaces_step(text, p - 1);
    } else {
        assert(text.take(0) =~= Seq::<Touch>::empty());
    }
}

/// An immutable text to type.
#[derive(Clone, Debug)]
pub struct Challenge {
    /// The words in sequence.
    words: Vec<Word>,
    /// Number of touches, separators included.
    total_count: usize,
    /// For each word the flat position of its first character.
    skip_index: Vec<usize>,
}

impl View for Challenge {
    type V = Seq<Seq<char>>;

    closed spec fn view(&self) -> Seq<Seq<char>> {
        words_view(self.words@)
    }
}

/// A walk over the touches of a challenge, each with its word index.
pub struct CIter<'a> {
    challenge: &'a Challenge,
    word_ix: usize,
    ix: usize,
}

impl Challenge {
    /// The derived counts agree with the words.
    pub closed spec fn wf(&self) -> bool {
        &&& self.words@.len() >= 1
        &&& self.skip_index@.len() == self.words@.len()
        &&& forall|k: int|
            0 <= k < self.skip_index@.len() ==> #[trigger] self.skip_index@[k] == start(self@, k)
        &&& self.total_count == flat(self@).len()
    }

    /// The flat text.
    pub open spec fn text(&self) -> Seq<Touch> {
        flat(self@)
    }

    /// Walking a challenge hands out as many items as `len` counts, and at
    /// each position the touch that `expected_at` gives.
    pub proof fn lemma_walk_matches_text(&self)
        ensures
            self.touches().len() == self.text().len(),
            forall|p: int|
                0 <= p < self.text().len() ==> (#[trigger] self.touches()[p]).0 == self.text()[p],
    {
    }

    /// The flat text of a well-formed challenge can be indexed by `usize`.
    pub proof fn lemma_text_is_countable(&self)
        requires
            self.wf(),
        ensures
            self.text().len() <= usize::MAX,
    {
    }

    /// All touches with their word indices, in position order.
    pub open spec fn touches(&self) -> Seq<(Touch, WordIndex)> {
        tagged(self.text())
    }

    /// Whether a challenge can be made of `words`: there is at least one
    /// word, and the length of the flat text fits a `usize`.
    pub open spec fn admits(words: Seq<Seq<char>>) -> bool {
        words.len() >= 1 && flat(words).len() <= usize::MAX
    }

    /// The start of every word and the length of the flat text, or `None`
    /// where `admits` fails.
    fn index_words(words: &Vec<Word>) -> (index: Option<(Vec<usize>, usize)>)
        ensures
            index is Some <==> Self::admits(words_view(words@)),
            index matches Some((skip_index, total)) ==> {
                &&& skip_index@.len() == words@.len()
                &&& forall|j: int|
                    0 <= j < skip_index@.len() ==> #[trigger] skip_index@[j] == start(
                        words_view(words@),
                        j,
                    )
                &&& total == flat(words_view(words@)).len()
            },
    {
        let n = words.len();
        if n == 0 {
            return None;
        }
        let ghost ws = words_view(words@);
        let mut skip_index: Vec<usize> = Vec::new();
        let mut skips: usize = 0;
        let mut k: usize = 0;
        proof {
            lemma_flat_len(ws);
        }
        while k < n
            invariant
                n == words.len(),
                n >= 1,
                ws == words_view(words@),
                flat(ws).len() == start(ws, n as int) - 1,
                0 <= k <= n,
                skip_index@.len() == k,
                forall|j: int| 0 <= j < k ==> #[trigger] skip_index@[j] == start(ws, j),
                k < n ==> skips == start(ws, k as int),
                k == n ==> skips == start(ws, n as int) - 1,
            decreases n - k,
        {
            skip_index.push(skips);
            let len = words[k].len();
            proof {
                lemma_start_increases(ws, k as int + 1, n as int);
            }
            if k + 1 < n {
                if len >= usize::MAX - skips {
                    return None;
                }
                skips = skips + len + 1;
            } else {
                if len > usize::MAX - skips {
                    return None;
                }
                skips = skips + len;
            }
            k = k + 1;
        }
        Some((skip_index, skips))
    }

    /// Decides `admits`.
    pub fn fits(words: &Vec<Word>) -> (ok: bool)
        ensures
            ok == Self::admits(words_view(words@)),
    {
        Self::index_words(words).is_some()
    }

    /// The challenge made of `words`.
    pub fn from(words: Vec<Word>) -> (challenge: Challenge)
        requires
            Self::admits(words_view(words@)),
        ensures
            challenge.wf(),
            challenge@ == words_view(words@),
    {
        let (skip_index, total_count) = Self::index_words(&words).unwrap();
        Challenge { words, total_count, skip_index }
    }

    /// The challenge made of the words of `s`, which whitespace separates;
    /// an error where `s` holds no word.
    pub fn from_text(s: &str) -> (challenge: Result<Challenge, ()>)
        ensures
            challenge is Ok <==> Self::admits(words_of(s@)),
            challenge matches Ok(c) ==> c.wf() && c@ == words_of(s@),
    {
        let words = split_words(s);
        if Self::fits(&words) {
            Ok(Self::from(words))
        } else {
            Err(())
        }
    }

    /// Number of touches expected in the challenge.
    pub fn len(&self) -> (n: usize)
        requires
            self.wf(),
        ensures
            n == self.text().len(),
    {
        self.total_count
    }

    /// Index of the word whose span, separator included, holds `position`.
    fn word_at(&self, position: usize) -> (k: usize)
        requires
            self.wf(),
            position < self.text().len(),
        ensures
            k < self@.len(),
            start(self@, k as int) <= position < start(self@, k as int + 1),
    {
        let n = self.skip_index.len();
        let mut lo: usize = 0;
        let mut hi: usize = n;
        proof {
            lemma_flat_len(self@);
        }
        while hi - lo > 1
            invariant
                self.wf(),
                n == self.skip_index@.len(),
                0 <= lo < hi <= n,
                start(self@, lo as int) <= position < start(self@, hi as int),
            decreases hi - lo,
        {
            let mid = lo + (hi - lo) / 2;
            if self.skip_index[mid] <= position {
                lo = mid;
            } else {
                hi = mid;
            }
        }
        lo
    }

    /// The touch expected at `position`, or `None` behind the end.
    pub fn expected_at(&self, position: usize) -> (touch: Option<Touch>)
        requires
            self.wf(),
        ensures
            touch is Some <==> position < self.text().len(),
            touch == (if position < self.text().len() {
                Some(self.text()[position as int])
            } else {
                None
            }),
    {
        if position >= self.total_count {
            None
        } else {
            let k = self.word_at(position);
            let skip = self.skip_index[k];
            let word = &self.words[k];
            let char_index = position - skip;
            proof {
                lemma_flat_len(self@);
                lemma_start_increases(self@, k as int + 1, self@.len() as int);
                lemma_flat_at(self@, k as int, char_index as int);
            }
            match word.char_at(char_index) {
                Some(c) => Some(Touch::Char(c)),
                None => Some(Touch::Space),
            }
        }
    }

    /// A walk over all touches, from the first position.
    pub fn iter<'a>(&'a self) -> (it: CIter<'a>)
        requires
            self.wf(),
        ensures
            it.wf(),
            it.challenge() == *self,
            it.position() == 0,
            it.remaining() == self.touches(),
            it.remaining().len() == self.text().len(),
    {
        let it = CIter { challenge: self, word_ix: 0, ix: 0 };
        proof {
            assert(self.text().take(0) =~= Seq::<Touch>::empty());
            assert(it.remaining() =~= self.touches());
        }
        it
    }
}

impl std::str::FromStr for Challenge {
    type Err = ();

    /// The challenge as a string of whitespace-separated words.
    fn from_str(s: &str) -> (challenge: Result<Challenge, ()>)
        ensures
            challenge is Ok <==> Challenge::admits(words_of(s@)),
            challenge matches Ok(c) ==> c.wf() && c@ == words_of(s@),
    {
        Challenge::from_text(s)
    }
}

impl<'a> CIter<'a> {
    /// The challenge that is walked.
    pub closed spec fn challenge(&self) -> Challenge {
        *self.challenge
    }

    /// The position that `next` hands out next.
    pub closed spec fn position(&self) -> int {
        self.ix as int
    }

    /// The word index that goes with the next touch.
    pub closed spec fn word_index(&self) -> int {
        self.word_ix as int
    }

    /// The position that `next` hands out next.
    pub fn ix(&self) -> (ix: usize)
        ensures
            ix == self.position(),
    {
        self.ix
    }
}

impl<'a> Walk for CIter<'a> {
    type Item = (Touch, WordIndex);

    open spec fn wf(&self) -> bool {
        &&& self.challenge().wf()
        &&& 0 <= self.position() <= self.challenge().text().len()
        &&& self.word_index() == spaces(self.challenge().text().take(self.position()))
    }

    open spec fn remaining(&self) -> Seq<(Touch, WordIndex)> {
        self.challenge().touches().skip(self.position())
    }

    proof fn remaining_is_countable(&self) {
    }

    fn next(&mut self) -> (item: Option<(Touch, WordIndex)>)
        ensures
            final(self).challenge() == old(self).challenge(),
            final(self).position() == old(self).position() + if item is Some {
                1int
            } else {
                0int
            },
    {
        let ghost text = self.challenge.text();
        if self.ix < self.challenge.len() {
            proof {
                lemma_spaces_step(text, self.ix as int);
                assert(self.challenge.touches().skip(self.ix as int + 1)
                    =~= self.challenge.touches().skip(self.ix as int).drop_first());
            }
            let res = match self.challenge.expected_at(self.ix) {
                Some(Touch::Space) => {
                    let wix = self.word_ix;
                    self.word_ix = self.word_ix + 1;
                    Some((Touch::Space, wix))
                },
                Some(other) => Some((other, self.word_ix)),
                None => None,
            };
            self.ix = self.ix + 1;
            res
        } else {
            None
        }
    }
}

} // verus!
