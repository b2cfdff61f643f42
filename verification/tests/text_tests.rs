use mini_redis::text::{get_num, parse_command, parse_u64, u64_to_string};

#[test]
fn prints_zero() {
    assert_eq!(u64_to_string(0), "0");
}

#[test]
fn prints_digits_in_order() {
    assert_eq!(u64_to_string(12345), "12345");
}

#[test]
fn prints_largest_value() {
    assert_eq!(u64_to_string(u64::MAX), "18446744073709551615");
}

#[test]
fn parses_plain_number() {
    assert_eq!(parse_u64("123"), Some(123));
}

#[test]
fn parses_zero() {
    assert_eq!(parse_u64("0"), Some(0));
}

#[test]
fn rejects_empty() {
    assert_eq!(parse_u64(""), None);
}

#[test]
fn rejects_trailing_letter() {
    assert_eq!(parse_u64("12a"), None);
}

#[test]
fn rejects_sign() {
    assert_eq!(parse_u64("+1"), None);
}

#[test]
fn parses_largest_value() {
    assert_eq!(parse_u64("18446744073709551615"), Some(u64::MAX));
}

#[test]
fn rejects_overflow() {
    assert_eq!(parse_u64("18446744073709551616"), None);
}

#[test]
fn print_parse_round_trip() {
    for n in [0u64, 1, 9, 10, 99, 100, 4096, u64::MAX] {
        assert_eq!(parse_u64(u64_to_string(n).as_str()), Some(n));
    }
}

#[test]
fn splits_command_words() {
    let words = parse_command(&String::from("set key value"));
    assert_eq!(words, vec!["set", "key", "value"]);
}

#[test]
fn empty_command_is_one_empty_word() {
    let words = parse_command(&String::from(""));
    assert_eq!(words, vec![""]);
}

#[test]
fn adjacent_separators_make_empty_words() {
    let words = parse_command(&String::from("a  b"));
    assert_eq!(words, vec!["a", "", "b"]);
}

#[test]
fn reads_receiver_count() {
    assert_eq!(get_num(&vec!['1', '2', '3']), 123);
}

#[test]
fn reads_single_digit() {
    assert_eq!(get_num(&vec!['0']), 0);
}
