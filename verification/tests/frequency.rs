use touchtype::frequency::{parse_count, parse_entry, parse_frequencies, split_at};

fn chars(s: &str) -> Vec<char> {
    s.chars().collect()
}

fn text_of(v: &Vec<char>) -> String {
    v.iter().collect()
}

#[test]
pub fn split_at_keeps_empty_pieces() {
    let pieces: Vec<String> = split_at(&chars("a  b "), ' ').iter().map(text_of).collect();
    assert_eq!(pieces, vec!["a", "", "b", ""]);
    let pieces: Vec<String> = split_at(&chars(""), ' ').iter().map(text_of).collect();
    assert_eq!(pieces, vec![""]);
    let pieces: Vec<String> = split_at(&chars("abc"), ' ').iter().map(text_of).collect();
    assert_eq!(pieces, vec!["abc"]);
}

#[test]
pub fn counts_are_decimal_numbers_of_32_bits() {
    assert_eq!(parse_count(&chars("0")), Some(0));
    assert_eq!(parse_count(&chars("007")), Some(7));
    assert_eq!(parse_count(&chars("+12")), Some(12));
    assert_eq!(parse_count(&chars("4294967295")), Some(u32::MAX));
    assert_eq!(parse_count(&chars("4294967296")), None);
    assert_eq!(parse_count(&chars("99999999999999999999999")), None);
    assert_eq!(parse_count(&chars("")), None);
    assert_eq!(parse_count(&chars("+")), None);
    assert_eq!(parse_count(&chars("-1")), None);
    assert_eq!(parse_count(&chars("++1")), None);
    assert_eq!(parse_count(&chars("1+")), None);
    assert_eq!(parse_count(&chars("12a")), None);
    assert_eq!(parse_count(&chars(" 12")), None);
    assert_eq!(parse_count(&chars("12\r")), None);
    assert_eq!(parse_count(&chars("١٢")), None);
    for s in ["0", "42", "+5", "", "+", "x", "4294967295", "4294967296", "00", "1_0"] {
        assert_eq!(parse_count(&chars(s)), s.parse::<u32>().ok());
    }
}

#[test]
pub fn an_entry_is_a_word_and_a_count() {
    let (w, c) = parse_entry(&chars("the 23")).unwrap();
    assert_eq!((w.len(), w.char_at(0), c), (3, Some('t'), 23));
    let (w, c) = parse_entry(&chars(" 5")).unwrap();
    assert_eq!((w.len(), c), (0, 5));
    assert!(parse_entry(&chars("the")).is_none());
    assert!(parse_entry(&chars("the  23")).is_none());
    assert!(parse_entry(&chars("the 23 ")).is_none());
    assert!(parse_entry(&chars("the x")).is_none());
    assert!(parse_entry(&chars("the\t23")).is_none());
    assert!(parse_entry(&chars("")).is_none());
}

#[test]
pub fn malformed_lines_are_skipped() {
    let text = "the 10\nof 5\n\nthis line is bad\nnocount\nand 3\r\nlast 1";
    let (words, counts) = parse_frequencies(text);
    let lens: Vec<usize> = words.iter().map(|w| w.len()).collect();
    assert_eq!(lens, vec![3, 2, 3, 4]);
    assert_eq!(counts, vec![10, 5, 3, 1]);
    assert_eq!(words[2].char_at(2), Some('d'));
}

#[test]
pub fn a_carriage_return_is_dropped_only_before_a_line_feed() {
    let (words, counts) = parse_frequencies("a 1\r\nb 2\r");
    assert_eq!(words.len(), 1);
    assert_eq!(counts, vec![1]);
    let (words, counts) = parse_frequencies("a 1\r\r\nb 2\n");
    assert_eq!(words.len(), 1);
    assert_eq!(counts, vec![2]);
}

#[test]
pub fn a_text_without_entries_gives_an_empty_table() {
    for text in ["", "\n", "\n\n", "word", "a b c\n"] {
        let (words, counts) = parse_frequencies(text);
        assert!(words.is_empty());
        assert!(counts.is_empty());
    }
}
