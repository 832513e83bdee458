//! Cutting a text into words.

use vstd::prelude::*;
use crate::word::Word;

verus! {

/// The characters that separate words: those with the Unicode property
/// `White_Space`.
pub open spec fn is_whitespace(c: char) -> bool {
    let u = c as u32;
    ||| 0x09 <= u <= 0x0D
    ||| u == 0x20
    ||| u == 0x85
    ||| u == 0xA0
    ||| u == 0x1680
    ||| 0x2000 <= u <= 0x200A
    ||| u == 0x2028
    ||| u == 0x2029
    ||| u == 0x202F
    ||| u == 0x205F
    ||| u == 0x3000
}

/// Decides `is_whitespace`.
pub fn whitespace(c: char) -> (b: bool)
    ensures
        b == is_whitespace(c),
{
    let u = c as u32;
    (0x09 <= u && u <= 0x0D) || u == 0x20 || u == 0x85 || u == 0xA0 || u == 0x1680 || (0x2000 <= u
        && u <= 0x200A) || u == 0x2028 || u == 0x2029 || u == 0x202F || u == 0x205F || u == 0x3000
}

/// The words of a text: its maximal runs of characters that are no
/// whitespace, in order. Read from the left, a character that is no
/// whitespace continues the last word if its predecessor belongs to it, and
/// starts a new word otherwise.
pub open spec fn words_of(text: Seq<char>) -> Seq<Seq<char>>
    decreases text.len(),
{
    if text.len() == 0 {
        Seq::empty()
    } else {
        let before = text.drop_last();
        let c = text.last();
        if is_whitespace(c) {
            words_of(before)
        } else if before.len() > 0 && !is_whitespace(before.last()) {
            words_of(before).drop_last().push(words_of(before).last().push(c))
        } else {
            words_of(before).push(seq![c])
        }
    }
}

/// The character sequences of a list of words.
pub open spec fn words_view(words: Seq<Word>) -> Seq<Seq<char>> {
    Seq::new(words.len(), |i: int| words[i]@)
}

/// The words of `s`, as `words_of` defines them.
pub fn split_words(s: &str) -> (words: Vec<Word>)
    ensures
        words_view(words@) == words_of(s@),
{
    let mut words: Vec<Word> = Vec::new();
    let mut current: Vec<char> = Vec::new();
    let mut in_word = false;
    for c in it: s.chars()
        invariant
            it.seq() == s@,
            in_word <==> it.index() > 0 && !is_whitespace(s@[it.index() - 1]),
            !in_word ==> current@.len() == 0,
            in_word ==> words_of(s@.take(it.index() as int)) == words_view(words@).push(current@),
            !in_word ==> words_of(s@.take(it.index() as int)) == words_view(words@),
    {
        let ghost i = it.index() as int;
        let ghost seen = words_view(words@);
        proof {
            assert(s@.take(i + 1).drop_last() =~= s@.take(i));
            assert(s@.take(i + 1).last() == c);
            if i > 0 {
                assert(s@.take(i).last() == s@[i - 1]);
            }
        }
        if whitespace(c) {
            if in_word {
                let word = Word::from_chars(current);
                current = Vec::new();
                words.push(word);
                proof {
                    assert(words_view(words@) =~= seen.push(word@));
                }
            }
            in_word = false;
        } else {
            let ghost grown = current@;
            current.push(c);
            proof {
                if in_word {
                    assert(seen.push(grown).drop_last() =~= seen);
                } else {
                    assert(current@ =~= seq![c]);
                }
            }
            in_word = true;
        }
    }
    proof {
        assert(s@.take(s@.len() as int) =~= s@);
    }
    if in_word {
        let ghost seen = words_view(words@);
        let word = Word::from_chars(current);
        words.push(word);
        proof {
            assert(words_view(words@) =~= seen.push(word@));
        }
    }
    words
}

} // verus!
