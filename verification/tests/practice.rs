use std::str::FromStr;

use touchtype::challenge::Challenge;
use touchtype::practice::Practice;
use touchtype::touch::{Touch, TouchState};
use touchtype::walk::{collect, Walk};

fn practice(text: &str) -> Practice {
    Practice::new(Challenge::from_str(text).unwrap(), "practice_0.txt".to_string())
}

fn touches(text: &str) -> Vec<Touch> {
    text.chars().map(Touch::from).collect()
}

#[test]
pub fn typing_the_whole_text_correctly_succeeds_every_time() {
    let text = "this is a practice";
    let mut p = practice(text);
    for t in touches(text) {
        assert_eq!(p.press(&t), Some(true));
    }
    assert_eq!(p.press(&Touch::Char('x')), None);
    assert_eq!(p.score(), (18, 18));
    assert_eq!(p.cursor(), 18);
    assert_eq!(p.len(), 18);
    assert_eq!(p.report(), "total = 18\nsucc = 18\n");
}

#[test]
pub fn one_wrong_touch_at_the_start_costs_one_success() {
    let text = "this is a practice";
    let mut p = practice(text);
    let mut outcomes = vec![];
    outcomes.push(p.press(&Touch::Char('x')));
    for t in touches(text).iter().skip(1) {
        outcomes.push(p.press(t));
    }
    let mut expected = vec![Some(true); 18];
    expected[0] = Some(false);
    assert_eq!(outcomes, expected);
    assert_eq!(p.press(&Touch::Space), None);
    assert_eq!(p.score(), (18, 17));
    assert_eq!(p.report(), "total = 18\nsucc = 17\n");
}

#[test]
pub fn a_finished_practice_ignores_every_press() {
    let mut p = practice("ab");
    assert_eq!(p.press(&Touch::Char('a')), Some(true));
    assert_eq!(p.press(&Touch::Char('a')), Some(false));
    for t in [Touch::Char('a'), Touch::Space, Touch::Char('b')] {
        assert_eq!(p.check(&t), None);
        assert_eq!(p.press(&t), None);
        assert_eq!(p.cursor(), 2);
        assert_eq!(p.score(), (2, 1));
    }
}

#[test]
pub fn check_does_not_move_the_cursor() {
    let p = practice("a b");
    assert_eq!(p.check(&Touch::Char('a')), Some(true));
    assert_eq!(p.check(&Touch::Char('b')), Some(false));
    assert_eq!(p.check(&Touch::Space), Some(false));
    assert_eq!(p.cursor(), 0);
    assert_eq!(p.score(), (0, 0));
}

#[test]
pub fn a_space_is_expected_between_words() {
    let mut p = practice("a b");
    assert_eq!(p.press(&Touch::Char('a')), Some(true));
    assert_eq!(p.check(&Touch::Char(' ')), Some(false));
    assert_eq!(p.press(&Touch::Space), Some(true));
    assert_eq!(p.press(&Touch::Char('b')), Some(true));
}

#[test]
pub fn a_new_practice_shows_the_first_position_as_current() {
    let p = practice("ab c");
    let states: Vec<TouchState> = collect(p.iter()).iter().map(|x| x.1).collect();
    assert_eq!(
        states,
        vec![
            TouchState::Current(true),
            TouchState::Future,
            TouchState::Future,
            TouchState::Future,
        ]
    );
}

#[test]
pub fn display_states_follow_the_cursor() {
    let mut p = practice("ab cd");
    assert_eq!(p.press(&Touch::Char('a')), Some(true));
    assert_eq!(p.press(&Touch::Char('x')), Some(false));
    let cells = collect(p.iter());
    assert_eq!(
        cells,
        vec![
            (Touch::Char('a'), TouchState::Attempted(true), 0),
            (Touch::Char('b'), TouchState::Attempted(false), 0),
            (Touch::Space, TouchState::Current(false), 0),
            (Touch::Char('c'), TouchState::Next, 1),
            (Touch::Char('d'), TouchState::Future, 1),
        ]
    );
}

#[test]
pub fn a_finished_practice_shows_only_attempts() {
    let mut p = practice("ab");
    p.press(&Touch::Char('a'));
    p.press(&Touch::Char('b'));
    let mut it = p.iter();
    assert_eq!(it.state(), TouchState::Attempted(true));
    assert_eq!(it.next(), Some((Touch::Char('a'), TouchState::Attempted(true), 0)));
    assert_eq!(it.next(), Some((Touch::Char('b'), TouchState::Attempted(true), 0)));
    assert_eq!(it.state(), TouchState::Current(false));
    assert_eq!(it.next(), None);
    assert_eq!(it.next(), None);
}

#[test]
pub fn the_state_is_read_before_the_walk_moves() {
    let mut p = practice("abc");
    p.press(&Touch::Char('a'));
    let mut it = p.iter();
    assert_eq!(it.state(), TouchState::Attempted(true));
    it.next();
    assert_eq!(it.state(), TouchState::Current(false));
    it.next();
    assert_eq!(it.state(), TouchState::Next);
}

#[test]
pub fn a_practice_keeps_its_name() {
    let p = practice("a");
    assert_eq!(p.name(), "practice_0.txt");
}

#[test]
pub fn lines_hold_the_asked_number_of_words() {
    let mut p = practice("a b c d e");
    p.press(&Touch::Char('a'));
    let cells = p.lines(2);
    let lines: Vec<usize> = cells.iter().map(|c| c.0).collect();
    assert_eq!(lines, vec![0, 0, 0, 0, 1, 1, 1, 1, 2]);
    assert_eq!(cells[0].1, (Touch::Char('a'), TouchState::Attempted(true), 0));
    assert_eq!(cells[1].1, (Touch::Space, TouchState::Current(false), 0));
    assert_eq!(cells[8].1, (Touch::Char('e'), TouchState::Future, 4));
    let one = p.lines(1);
    for c in one.iter() {
        assert_eq!(c.0, c.1 .2);
    }
    let wide = p.lines(100);
    assert!(wide.iter().all(|c| c.0 == 0));
}

#[test]
pub fn a_report_of_nothing_counts_zero() {
    let p = practice("abc");
    assert_eq!(p.report(), "total = 0\nsucc = 0\n");
}

#[test]
pub fn the_log_is_defined_exactly_before_the_cursor() {
    let mut p = practice("ab cd");
    for t in [Touch::Char('a'), Touch::Char('x'), Touch::Char(' ')] {
        p.press(&t);
        let cursor = p.cursor();
        for ix in 0..cursor {
            assert!(p.attempt().get(ix).is_some());
        }
        for ix in cursor..cursor + 4 {
            assert_eq!(p.attempt().get(ix), None);
        }
    }
    assert_eq!(p.attempt().get(0), Some(&true));
    assert_eq!(p.attempt().get(1), Some(&false));
    assert_eq!(p.attempt().get(2), Some(&false));
    assert_eq!(p.attempt().len(), p.cursor());
}
