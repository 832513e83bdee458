//! The word-frequency format: one entry per line, a word and a count
//! separated by a single space. Lines of any other shape are skipped.

use vstd::prelude::*;
use crate::text::words_view;
use crate::word::Word;

verus! {

/// The pieces of `s` between occurrences of `sep`; there is always one
/// piece more than there are separators.
pub open spec fn split(s: Seq<char>, sep: char) -> Seq<Seq<char>>
    decreases s.len(),
{
    if s.len() == 0 {
        seq![Seq::<char>::empty()]
    } else {
        let before = split(s.drop_last(), sep);
        if s.last() == sep {
            before.push(Seq::<char>::empty())
        } else {
            before.drop_last().push(before.last().push(s.last()))
        }
    }
}

/// `line` without one trailing carriage return.
pub open spec fn strip_cr(line: Seq<char>) -> Seq<char> {
    if line.len() > 0 && line.last() == '\r' {
        line.drop_last()
    } else {
        line
    }
}

/// The lines of a text. A line ends with a line feed, before which one
/// carriage return is dropped; a last line without line feed counts if it
/// is not empty, and keeps its characters.
pub open spec fn lines_of(text: Seq<char>) -> Seq<Seq<char>> {
    let parts = split(text, '\n');
    let ended = parts.len() - 1;
    Seq::new(
        (if parts.last().len() == 0 {
            ended
        } else {
            ended + 1
        }) as nat,
        |i: int|
            if i < ended {
                strip_cr(parts[i])
            } else {
                parts[i]
            },
    )
}

/// Whether `c` is one of the characters `0` to `9`.
pub open spec fn is_digit(c: char) -> bool {
    '0' <= c <= '9'
}

/// The number that a sequence of decimal digits denotes.
pub open spec fn value(digits: Seq<char>) -> nat
    decreases digits.len(),
{
    if digits.len() == 0 {
        0
    } else {
        value(digits.drop_last()) * 10 + (digits.last() as u32 - '0' as u32) as nat
    }
}

/// Whether a sequence holds decimal digits only.
pub open spec fn all_digits(s: Seq<char>) -> bool {
    forall|i: int| 0 <= i < s.len() ==> is_digit(#[trigger] s[i])
}

/// A field without its sign: one leading `+` is dropped.
pub open spec fn unsigned_part(field: Seq<char>) -> Seq<char> {
    if field.len() > 0 && field[0] == '+' {
        field.skip(1)
    } else {
        field
    }
}

/// The count that a field denotes: decimal digits, at least one, after an
/// optional `+`, with a value that fits 32 bits.
pub open spec fn count_of(field: Seq<char>) -> Option<u32> {
    let digits = unsigned_part(field);
    if digits.len() > 0 && all_digits(digits) && value(digits) <= u32::MAX {
        Some(value(digits) as u32)
    } else {
        None
    }
}

/// The entry that a line holds: its two fields, if it has exactly two and
/// the second is a count.
pub open spec fn entry_of(line: Seq<char>) -> Option<(Seq<char>, u32)> {
    let fields = split(line, ' ');
    if fields.len() == 2 {
        match count_of(fields[1]) {
            Some(count) => Some((fields[0], count)),
            None => None,
        }
    } else {
        None
    }
}

/// The entries of a list of lines, in order; lines without entry are
/// left out.
pub open spec fn entries_of(lines: Seq<Seq<char>>) -> Seq<(Seq<char>, u32)>
    decreases lines.len(),
{
    if lines.len() == 0 {
        Seq::empty()
    } else {
        match entry_of(lines.last()) {
            Some(entry) => entries_of(lines.drop_last()).push(entry),
            None => entries_of(lines.drop_last()),
        }
    }
}

/// The words of a list of entries.
pub open spec fn entry_words(entries: Seq<(Seq<char>, u32)>) -> Seq<Seq<char>> {
    Seq::new(entries.len(), |i: int| entries[i].0)
}

/// The counts of a list of entries.
pub open spec fn entry_counts(entries: Seq<(Seq<char>, u32)>) -> Seq<u32> {
    Seq::new(entries.len(), |i: int| entries[i].1)
}

/// The character sequences of a list of character vectors.
pub open spec fn pieces_view(pieces: Seq<Vec<char>>) -> Seq<Seq<char>> {
    Seq::new(pieces.len(), |i: int| pieces[i]@)
}

/// A longer sequence of digits denotes no smaller number.
proof fn lemma_value_grows(digits: Seq<char>, n: int)
    requires
        0 <= n <= digits.len(),
    ensures
        value(digits.take(n)) <= value(digits),
    decreases digits.len() - n,
{
    if n < digits.len() {
        lemma_value_grows(digits, n + 1);
        assert(digits.take(n + 1).drop_last() =~= digits.take(n));
    } else {
        assert(digits.take(n) =~= digits);
    }
}

/// Cuts `s` at every occurrence of `sep`.
pub fn split_at(s: &Vec<char>, sep: char) -> (pieces: Vec<Vec<char>>)
    ensures
        pieces_view(pieces@) == split(s@, sep),
        pieces@.len() >= 1,
{
    let mut pieces: Vec<Vec<char>> = Vec::new();
    let mut current: Vec<char> = Vec::new();
    let mut i: usize = 0;
    while i < s.len()
        invariant
            0 <= i <= s@.len(),
            split(s@.take(i as int), sep) == pieces_view(pieces@).push(current@),
        decreases s@.len() - i,
    {
        let ghost seen = pieces_view(pieces@);
        let ghost grown = current@;
        proof {
            assert(s@.take(i + 1).drop_last() =~= s@.take(i as int));
            assert(seen.push(grown).drop_last() =~= seen);
        }
        let c = s[i];
        if c == sep {
            let piece = current;
            current = Vec::new();
            pieces.push(piece);
            proof {
                assert(pieces_view(pieces@) =~= seen.push(grown));
            }
        } else {
            current.push(c);
        }
        i = i + 1;
    }
    proof {
        assert(s@.take(i as int) =~= s@);
    }
    let ghost seen = pieces_view(pieces@);
    let ghost grown = current@;
    pieces.push(current);
    proof {
        assert(pieces_view(pieces@) =~= seen.push(grown));
    }
    pieces
}

/// Reads a count.
pub fn parse_count(field: &Vec<char>) -> (count: Option<u32>)
    ensures
        count == count_of(field@),
{
    let n = field.len();
    let start: usize = if n > 0 && field[0] == '+' {
        1
    } else {
        0
    };
    let ghost digits = unsigned_part(field@);
    proof {
        assert(field@.skip(0) =~= field@);
    }
    if start == n {
        return None;
    }
    let mut acc: u64 = 0;
    let mut i: usize = start;
    while i < n
        invariant
            n == field@.len(),
            start <= i <= n,
            digits == field@.skip(start as int),
            digits == unsigned_part(field@),
            acc == value(digits.take(i - start)),
            acc <= u32::MAX,
            all_digits(digits.take(i - start)),
        decreases n - i,
    {
        let c = field[i];
        proof {
            assert(digits[i - start] == c);
            assert(digits.take(i - start + 1).drop_last() =~= digits.take(i - start));
        }
        if !('0' <= c && c <= '9') {
            proof {
                assert(!is_digit(digits[i - start]));
            }
            return None;
        }
        acc = acc * 10 + (c as u32 - '0' as u32) as u64;
        if acc > u32::MAX as u64 {
            proof {
                lemma_value_grows(digits, i - start + 1);
            }
            return None;
        }
        proof {
            assert forall|j: int| 0 <= j < i - start + 1 implies is_digit(
                #[trigger] digits.take(i - start + 1)[j],
            ) by {
                if j < i - start {
                    assert(digits.take(i - start)[j] == digits[j]);
                }
            }
        }
        i = i + 1;
    }
    proof {
        assert(digits.take(n - start) =~= digits);
    }
    Some(acc as u32)
}

/// The characters of `s`.
fn chars_of(s: &str) -> (chars: Vec<char>)
    ensures
        chars@ == s@,
{
    let mut chars: Vec<char> = Vec::new();
    for c in it: s.chars()
        invariant
            it.seq() == s@,
            chars@ == s@.take(it.index() as int),
    {
        chars.push(c);
        proof {
            assert(chars@ =~= s@.take(it.index() + 1));
        }
    }
    proof {
        assert(s@.take(s@.len() as int) =~= s@);
    }
    chars
}

/// A copy of `part`, without one trailing carriage return if `ended`.
fn line_of(part: &Vec<char>, ended: bool) -> (line: Vec<char>)
    ensures
        line@ == (if ended {
            strip_cr(part@)
        } else {
            part@
        }),
{
    let mut line = part.clone();
    let n = line.len();
    if ended && n > 0 && line[n - 1] == '\r' {
        line.pop();
        proof {
            assert(line@ =~= part@.drop_last());
        }
    }
    line
}

/// Reads one line.
pub fn parse_entry(line: &Vec<char>) -> (entry: Option<(Word, u32)>)
    ensures
        entry is Some <==> entry_of(line@) is Some,
        entry matches Some((word, count)) ==> entry_of(line@) == Some((word@, count)),
{
    let mut fields = split_at(line, ' ');
    proof {
        assert(pieces_view(fields@).len() == fields@.len());
    }
    if fields.len() != 2 {
        return None;
    }
    proof {
        assert(pieces_view(fields@)[0] == fields@[0]@);
        assert(pieces_view(fields@)[1] == fields@[1]@);
    }
    let count_field = fields.pop().unwrap();
    let word_field = fields.pop().unwrap();
    match parse_count(&count_field) {
        Some(count) => Some((Word::from_chars(word_field), count)),
        None => None,
    }
}

/// Reads a whole text: the words of its entries and, at the same indices,
/// their counts.
pub fn parse_frequencies(text: &str) -> (table: (Vec<Word>, Vec<u32>))
    ensures
        words_view(table.0@) == entry_words(entries_of(lines_of(text@))),
        table.1@ == entry_counts(entries_of(lines_of(text@))),
{
    let chars = chars_of(text);
    let parts = split_at(&chars, '\n');
    let ghost lines = lines_of(text@);
    let n = parts.len();
    proof {
        assert(pieces_view(parts@).len() == n);
    }
    let mut words: Vec<Word> = Vec::new();
    let mut counts: Vec<u32> = Vec::new();
    let mut i: usize = 0;
    while i < n
        invariant
            n == parts@.len(),
            n >= 1,
            pieces_view(parts@) == split(text@, '\n'),
            lines == lines_of(text@),
            0 <= i <= n,
            i <= lines.len() || (i == n && lines.len() == n - 1),
            words_view(words@) == entry_words(
                entries_of(lines.take(if i <= lines.len() {
                    i as int
                } else {
                    n - 1
                })),
            ),
            counts@ == entry_counts(
                entries_of(lines.take(if i <= lines.len() {
                    i as int
                } else {
                    n - 1
                })),
            ),
        decreases n - i,
    {
        let part = &parts[i];
        proof {
            assert(pieces_view(parts@)[i as int] == part@);
            assert(pieces_view(parts@).last() == parts@[n - 1]@);
        }
        let ended = i + 1 < n;
        if ended || part.len() > 0 {
            let line = line_of(part, ended);
            let ghost before = entries_of(lines.take(i as int));
            let ghost seen_words = words_view(words@);
            let ghost seen_counts = counts@;
            proof {
                assert(lines[i as int] == line@);
                assert(lines.take(i + 1).drop_last() =~= lines.take(i as int));
                assert(lines.take(i + 1).last() == line@);
            }
            match parse_entry(&line) {
                Some((word, count)) => {
                    words.push(word);
                    counts.push(count);
                    proof {
                        let after = entries_of(lines.take(i + 1));
                        assert(after == before.push((word@, count)));
                        assert(words_view(words@) =~= seen_words.push(word@));
                        assert(entry_words(after) =~= entry_words(before).push(word@));
                        assert(entry_counts(after) =~= entry_counts(before).push(count));
                    }
                },
                None => {},
            }
        }
        i = i + 1;
    }
    proof {
        assert(lines.take(lines.len() as int) =~= lines);
    }
    (words, counts)
}

} // verus!
