use std::str::FromStr;

use touchtype::challenge::Challenge;
use touchtype::text::{split_words, whitespace};
use touchtype::touch::Touch;
use touchtype::walk::{collect, Walk};
use touchtype::word::Word;

#[test]
pub fn model_it_computes_expected_at() {
    let p = Challenge::from_str("this is a practice").unwrap();
    assert_eq!(p.expected_at(1), Some(Touch::Char('h')));
    assert_eq!(p.expected_at(3), Some(Touch::Char('s')));
    assert_eq!(p.expected_at(4), Some(Touch::Space));
    assert_eq!(p.expected_at(7), Some(Touch::Space));
    assert_eq!(p.expected_at(13), Some(Touch::Char('c')));
    assert_eq!(p.expected_at(18), None);
}

#[test]
pub fn session_it_computes_expected_at() {
    let p = Challenge::from_str("this is a practice").unwrap();
    assert_eq!(p.expected_at(1), Some(Touch::Char('h')));
    assert_eq!(p.expected_at(3), Some(Touch::Char('s')));
    assert_eq!(p.expected_at(4), Some(Touch::Space));
    assert_eq!(p.expected_at(7), Some(Touch::Space));
    assert_eq!(p.expected_at(13), Some(Touch::Char('c')));
    assert_eq!(p.expected_at(18), None);
}

#[test]
pub fn expected_at_is_defined_exactly_before_the_end() {
    let c = Challenge::from_str("this is a practice").unwrap();
    assert_eq!(c.len(), 18);
    for p in 0..c.len() {
        assert!(c.expected_at(p).is_some());
    }
    for p in c.len()..c.len() + 5 {
        assert_eq!(c.expected_at(p), None);
    }
    assert_eq!(c.expected_at(usize::MAX), None);
}

#[test]
pub fn expected_at_spells_the_text_with_single_spaces() {
    let c = Challenge::from_str("ab  c").unwrap();
    let expected = vec![
        Touch::Char('a'),
        Touch::Char('b'),
        Touch::Space,
        Touch::Char('c'),
    ];
    assert_eq!(c.len(), expected.len());
    for (p, t) in expected.iter().enumerate() {
        assert_eq!(c.expected_at(p), Some(*t));
    }
}

#[test]
pub fn there_is_no_space_after_the_last_word() {
    let c = Challenge::from_str("one").unwrap();
    assert_eq!(c.len(), 3);
    assert_eq!(c.expected_at(2), Some(Touch::Char('e')));
    assert_eq!(c.expected_at(3), None);
}

#[test]
pub fn walking_a_challenge_counts_every_touch() {
    let c = Challenge::from_str("this is a practice").unwrap();
    let items = collect(c.iter());
    assert_eq!(items.len(), c.len());
    for (p, (t, _)) in items.iter().enumerate() {
        assert_eq!(Some(*t), c.expected_at(p));
    }
}

#[test]
pub fn a_space_belongs_to_the_word_before_it() {
    let c = Challenge::from_str("ab c de").unwrap();
    let items = collect(c.iter());
    assert_eq!(
        items,
        vec![
            (Touch::Char('a'), 0),
            (Touch::Char('b'), 0),
            (Touch::Space, 0),
            (Touch::Char('c'), 1),
            (Touch::Space, 1),
            (Touch::Char('d'), 2),
            (Touch::Char('e'), 2),
        ]
    );
}

#[test]
pub fn a_walk_can_be_started_again() {
    let c = Challenge::from_str("ab c").unwrap();
    let first = collect(c.iter());
    let second = collect(c.iter());
    assert_eq!(first, second);
}

#[test]
pub fn a_finished_walk_stays_finished() {
    let c = Challenge::from_str("a").unwrap();
    let mut it = c.iter();
    assert_eq!(it.next(), Some((Touch::Char('a'), 0)));
    assert_eq!(it.next(), None);
    assert_eq!(it.next(), None);
    assert_eq!(it.ix(), 1);
}

#[test]
pub fn a_text_without_words_makes_no_challenge() {
    assert!(Challenge::from_str("").is_err());
    assert!(Challenge::from_str(" \t\n ").is_err());
    assert!(Challenge::from_text("").is_err());
    assert!(!Challenge::fits(&Vec::new()));
}

#[test]
pub fn words_are_cut_at_any_whitespace() {
    let words = split_words("  one\ttwo\nthree\u{a0}four\u{3000}five ");
    let lens: Vec<usize> = words.iter().map(|w| w.len()).collect();
    assert_eq!(lens, vec![3, 3, 5, 4, 4]);
    assert_eq!(words[3].char_at(0), Some('f'));
    assert!(whitespace(' '));
    assert!(whitespace('\u{2028}'));
    assert!(whitespace('\u{85}'));
    assert!(!whitespace('a'));
    assert!(!whitespace('\u{200b}'));
    for c in ['\t', '\n', '\r', ' ', 'x', '\u{1680}', '\u{2000}', '\u{200a}', '\u{200b}', '\u{202f}', '\u{205f}', '\u{feff}'] {
        assert_eq!(whitespace(c), c.is_whitespace());
    }
}

#[test]
pub fn a_word_counts_characters() {
    let w = Word::from("héllo");
    assert_eq!(w.len(), 5);
    assert_eq!(w.char_at(1), Some('é'));
    assert_eq!(w.char_at(4), Some('o'));
    assert_eq!(w.char_at(5), None);
    let copy = w.duplicate();
    assert_eq!(copy.len(), 5);
    assert_eq!(copy.char_at(1), Some('é'));
    let c = Challenge::from_str("héllo wörld").unwrap();
    assert_eq!(c.len(), 11);
    assert_eq!(c.expected_at(5), Some(Touch::Space));
    assert_eq!(c.expected_at(7), Some(Touch::Char('ö')));
}

#[test]
pub fn a_challenge_from_words_keeps_them() {
    let words = vec![Word::from(""), Word::from("a"), Word::from_chars(vec!['b', ' '])];
    assert!(Challenge::fits(&words));
    let c = Challenge::from(words);
    assert_eq!(c.len(), 5);
    assert_eq!(c.expected_at(0), Some(Touch::Space));
    assert_eq!(c.expected_at(1), Some(Touch::Char('a')));
    assert_eq!(c.expected_at(2), Some(Touch::Space));
    assert_eq!(c.expected_at(3), Some(Touch::Char('b')));
    assert_eq!(c.expected_at(4), Some(Touch::Char(' ')));
}

#[test]
pub fn a_typed_character_becomes_a_touch() {
    assert_eq!(Touch::from(' '), Touch::Space);
    assert_eq!(Touch::from('a'), Touch::Char('a'));
    assert_eq!(Touch::from('\t'), Touch::Char('\t'));
    assert_eq!(Touch::Char('q').to_string(), "q");
    assert_eq!(Touch::Char('é').to_string(), "é");
    assert_eq!(Touch::Space.to_string(), " ");
}
