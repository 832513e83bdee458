use touchtype::challenge::Challenge;
use touchtype::error::{TouchTypingError, WeightsError};
use touchtype::generate::PracticeGenerator;
use touchtype::practice::Practice;
use touchtype::sampler::total_weight;
use touchtype::touch::Touch;
use touchtype::word::Word;

const LIST: &str = "the 10\nnever 0\nof 5\nbroken line\nand 3\n";

fn spelled(c: &Challenge) -> String {
    (0..c.len())
        .map(|p| c.expected_at(p).unwrap().to_string())
        .collect()
}

#[test]
pub fn a_generated_challenge_has_the_asked_words_from_the_list() {
    let mut rng = rand::thread_rng();
    for size in [1usize, 2, 7, 40] {
        let c = Challenge::generate(&mut rng, size, LIST).unwrap();
        let text = spelled(&c);
        let words: Vec<&str> = text.split(' ').collect();
        assert_eq!(words.len(), size);
        for w in words {
            assert!(w == "the" || w == "of" || w == "and");
        }
    }
}

#[test]
pub fn a_word_without_weight_is_never_drawn() {
    let mut rng = rand::thread_rng();
    let c = Challenge::generate(&mut rng, 200, "no 0\nyes 1\nnope 0\n").unwrap();
    let text = spelled(&c);
    assert!(text.split(' ').all(|w| w == "yes"));
    assert_eq!(c.len(), 200 * 3 + 199);
}

#[test]
pub fn a_list_without_entries_is_refused() {
    let mut rng = rand::thread_rng();
    for text in ["", "\n", "just words here\n", "a b c"] {
        assert_eq!(
            Challenge::generate(&mut rng, 3, text).err(),
            Some(TouchTypingError::Weights(WeightsError::NoItem))
        );
    }
}

#[test]
pub fn a_list_of_zero_counts_is_refused() {
    let mut rng = rand::thread_rng();
    assert_eq!(
        Challenge::generate(&mut rng, 3, "a 0\nb 0\n").err(),
        Some(TouchTypingError::Weights(WeightsError::AllWeightsZero))
    );
}

#[test]
pub fn counts_that_do_not_add_up_in_32_bits_are_refused() {
    let mut rng = rand::thread_rng();
    assert_eq!(
        Challenge::generate(&mut rng, 3, "a 4294967295\nb 1\n").err(),
        Some(TouchTypingError::Weights(WeightsError::InvalidWeight))
    );
    assert!(Challenge::generate(&mut rng, 3, "a 4294967294\nb 1\n").is_ok());
}

#[test]
pub fn a_challenge_of_no_words_is_refused() {
    let mut rng = rand::thread_rng();
    assert_eq!(
        Challenge::generate(&mut rng, 0, LIST).err(),
        Some(TouchTypingError::NoWordAsked)
    );
}

#[test]
pub fn picks_select_words_in_their_order() {
    let vocabulary = vec![Word::from("zero"), Word::from("one"), Word::from("two")];
    let c = Challenge::from_picks(&vocabulary, &vec![2, 0, 2, 1]).unwrap();
    assert_eq!(spelled(&c), "two zero two one");
    assert_eq!(c.expected_at(3), Some(Touch::Space));
    assert_eq!(
        Challenge::from_picks(&vocabulary, &vec![]).err(),
        Some(TouchTypingError::NoWordAsked)
    );
}

#[test]
pub fn weights_are_summed_in_32_bits() {
    assert_eq!(total_weight(&vec![]), Some(0));
    assert_eq!(total_weight(&vec![1, 2, 3]), Some(6));
    assert_eq!(total_weight(&vec![u32::MAX, 0]), Some(u32::MAX));
    assert_eq!(total_weight(&vec![u32::MAX, 1]), None);
    assert_eq!(total_weight(&vec![1 << 31, 1 << 31]), None);
}

#[test]
pub fn a_generated_practice_is_named_after_its_time() {
    let mut rng = rand::thread_rng();
    let p = Practice::generate(&mut rng, 4, LIST, 1700000000).unwrap();
    assert_eq!(p.name(), "practice_1700000000.txt");
    assert_eq!(p.cursor(), 0);
    assert_eq!(p.score(), (0, 0));
    let p = Practice::generate(&mut rng, 1, LIST, 0).unwrap();
    assert_eq!(p.name(), "practice_0.txt");
    let p = Practice::generate(&mut rng, 1, LIST, u64::MAX).unwrap();
    assert_eq!(p.name(), "practice_18446744073709551615.txt");
    assert_eq!(
        Practice::generate(&mut rng, 1, "", 5).err(),
        Some(TouchTypingError::Weights(WeightsError::NoItem))
    );
}

#[test]
pub fn a_generator_remembers_what_it_was_made_with() {
    let mut g = PracticeGenerator::new(rand::thread_rng(), 25, "./data/words.freq");
    assert_eq!(g.size(), 25);
    assert_eq!(g.path(), "./data/words.freq");
    let p = g.generate(LIST, 12).unwrap();
    assert_eq!(p.name(), "practice_12.txt");
    let text: String = (0..p.len())
        .map(|i| collect_touch(&p, i))
        .collect();
    assert_eq!(text.split(' ').count(), 25);
    assert_eq!(g.size(), 25);
    let other = PracticeGenerator::new(7u8, 3, "x");
    assert_eq!(other.size(), 3);
}

fn collect_touch(p: &Practice, i: usize) -> String {
    p.lines(1)[i].1 .0.to_string()
}

#[test]
pub fn errors_have_messages() {
    assert_eq!(
        TouchTypingError::FileParseError.to_string(),
        "A line for form 'word(str) count(usize)' was expected"
    );
    assert_eq!(TouchTypingError::InvalidPathError.to_string(), "invalid path");
    assert_eq!(
        TouchTypingError::Weights(WeightsError::NoItem).to_string(),
        "No weights provided in distribution"
    );
    assert_eq!(
        TouchTypingError::Weights(WeightsError::AllWeightsZero).to_string(),
        "All weights are zero in distribution"
    );
    assert_eq!(
        WeightsError::InvalidWeight.to_string(),
        "A weight is invalid in distribution"
    );
    assert_eq!(
        WeightsError::TooMany.to_string(),
        "Too many weights (hit u32::MAX) in distribution"
    );
    assert_eq!(
        TouchTypingError::NoWordAsked.to_string(),
        "a challenge needs at least one word"
    );
    assert_eq!(TouchTypingError::TooLong.to_string(), "the challenge is too long");
}
