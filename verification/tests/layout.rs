use bema::runner::{equals_line, get_justify, split_string_lines, split_width, usize_to_string};

#[test]
fn center_offset_of_short_line() {
    let s = String::from("hi");
    assert_eq!(get_justify(80, vec![&s]), 39);
}

#[test]
fn center_offset_zero_when_line_reaches_width() {
    let long = String::from("0123456789");
    let short = String::from("a");
    assert_eq!(get_justify(10, vec![&short, &long]), 0);
}

#[test]
fn center_offset_zero_when_line_longer_than_width() {
    let long = String::from("0123456789abc");
    assert_eq!(get_justify(10, vec![&long]), 0);
}

#[test]
fn center_offset_of_empty_block_is_width() {
    assert_eq!(get_justify(17, vec![]), 17);
}

#[test]
fn center_offset_is_minimum_over_lines() {
    let a = String::from("aa");
    let b = String::from("aaaaaa");
    // offsets are (10-2)/2 = 4 and (10-6)/2 = 2; the block takes the minimum
    assert_eq!(get_justify(10, vec![&a, &b]), 2);
}

#[test]
fn center_offset_zero_width() {
    let a = String::from("x");
    assert_eq!(get_justify(0, vec![&a]), 0);
}

#[test]
fn split_width_equal_share() {
    assert_eq!(split_width(10, 3), 3);
    assert_eq!(split_width(9, 3), 3);
    assert_eq!(split_width(2, 3), 0);
    // the equal-share bound: share * n <= w < share * n + n
    let w = 10usize;
    let n = 3usize;
    let share = split_width(w, n);
    assert!(share * n <= w);
    assert!(w < share * n + n);
}

#[test]
fn decimal_strings() {
    assert_eq!(usize_to_string(0), "0");
    assert_eq!(usize_to_string(7), "7");
    assert_eq!(usize_to_string(1234), "1234");
    assert_eq!(usize_to_string(1000000), "1000000");
}

#[test]
fn line_splitting() {
    assert_eq!(split_string_lines(""), vec![String::new()]);
    assert_eq!(split_string_lines("a"), vec!["a".to_string()]);
    assert_eq!(split_string_lines("a\nb"), vec!["a".to_string(), "b".to_string()]);
    assert_eq!(
        split_string_lines("a\n\nb\n"),
        vec!["a".to_string(), String::new(), "b".to_string(), String::new()]
    );
}

#[test]
fn equals_line_repeats() {
    assert_eq!(equals_line(0), "");
    assert_eq!(equals_line(4), "====");
}
