use touchtype::render::{push_decimal, push_str};

fn decimal(n: u64) -> String {
    let mut out = Vec::new();
    push_decimal(&mut out, n);
    out.iter().collect()
}

#[test]
pub fn numbers_are_written_in_decimal() {
    assert_eq!(decimal(0), "0");
    assert_eq!(decimal(7), "7");
    assert_eq!(decimal(10), "10");
    assert_eq!(decimal(1234567890), "1234567890");
    assert_eq!(decimal(u64::MAX), "18446744073709551615");
    for n in [9u64, 99, 100, 101, 4096, 999_999_999_999] {
        assert_eq!(decimal(n), n.to_string());
    }
}

#[test]
pub fn text_is_appended_to_what_is_there() {
    let mut out = vec!['x'];
    push_str(&mut out, "yz");
    push_decimal(&mut out, 42);
    push_str(&mut out, "");
    assert_eq!(out, vec!['x', 'y', 'z', '4', '2']);
}
