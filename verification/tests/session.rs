use std::str::FromStr;

use touchtype::challenge::Challenge;
use touchtype::practice::Practice;
use touchtype::session::{KeyOutcome, Session};
use touchtype::touch::Touch;

fn practice(text: &str, name: &str) -> Practice {
    Practice::new(Challenge::from_str(text).unwrap(), name.to_string())
}

#[test]
pub fn keys_are_recorded_until_the_practice_is_done() {
    let mut s = Session::new(practice("ab", "one"));
    assert!(!s.saved());
    assert_eq!(s.key_pressed(&Touch::Char('a')), KeyOutcome::Recorded(true));
    assert_eq!(s.key_pressed(&Touch::Char('x')), KeyOutcome::Recorded(false));
    assert!(!s.saved());
    assert_eq!(s.practice().score(), (2, 1));
    assert_eq!(s.key_pressed(&Touch::Char('b')), KeyOutcome::Finished);
    assert!(s.saved());
    assert_eq!(s.practice().score(), (2, 1));
}

#[test]
pub fn a_finished_session_ignores_keys_until_a_new_practice_starts() {
    let mut s = Session::new(practice("a", "one"));
    assert_eq!(s.key_pressed(&Touch::Char('a')), KeyOutcome::Recorded(true));
    assert_eq!(s.key_pressed(&Touch::Char('a')), KeyOutcome::Finished);
    assert_eq!(s.key_pressed(&Touch::Char('a')), KeyOutcome::Ignored);
    assert_eq!(s.key_pressed(&Touch::Space), KeyOutcome::Ignored);
    assert_eq!(s.practice().name(), "one");
    s.start(practice("b", "two"));
    assert!(!s.saved());
    assert_eq!(s.practice().name(), "two");
    assert_eq!(s.practice().cursor(), 0);
    assert_eq!(s.key_pressed(&Touch::Char('b')), KeyOutcome::Recorded(true));
}
