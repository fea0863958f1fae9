use game_translator::text::{
    chars_vec, find_dot_space, format_usize, lines_vec, parse_usize_chars, string_from_chars,
    subvec, trim_chars, truncate_str,
};

#[test]
fn chars_round_trip() {
    let v = chars_vec("héllo 世界");
    assert_eq!(v.len(), 8);
    let s = string_from_chars(&v);
    assert_eq!(s, "héllo 世界");
}

#[test]
fn truncate_keeps_whole_characters() {
    assert_eq!(truncate_str("こんにちは", 3), "こんに");
    assert_eq!(truncate_str("abc", 10), "abc");
    assert_eq!(truncate_str("abc", 0), "");
}

#[test]
fn trim_both_ends() {
    let v = chars_vec("  hello world \t\r\n");
    assert_eq!(string_from_chars(&trim_chars(&v)), "hello world");
    let unicode = chars_vec("\u{3000}間\u{3000}");
    assert_eq!(string_from_chars(&trim_chars(&unicode)), "間");
    let blank = chars_vec("   ");
    assert_eq!(trim_chars(&blank).len(), 0);
}

#[test]
fn find_dot_space_first_occurrence() {
    let v = chars_vec("12. a. b");
    assert_eq!(find_dot_space(&v), Some(2));
    let none = chars_vec("12.b");
    assert_eq!(find_dot_space(&none), None);
    let empty = chars_vec("");
    assert_eq!(find_dot_space(&empty), None);
}

#[test]
fn parse_usize_accepts_plain_and_signed() {
    assert_eq!(parse_usize_chars(&chars_vec("42")), Some(42));
    assert_eq!(parse_usize_chars(&chars_vec("+7")), Some(7));
    assert_eq!(parse_usize_chars(&chars_vec("0")), Some(0));
    assert_eq!(parse_usize_chars(&chars_vec("")), None);
    assert_eq!(parse_usize_chars(&chars_vec("+")), None);
    assert_eq!(parse_usize_chars(&chars_vec("4x")), None);
    assert_eq!(parse_usize_chars(&chars_vec("-3")), None);
    assert_eq!(parse_usize_chars(&chars_vec("99999999999999999999999999")), None);
}

#[test]
fn format_usize_digits() {
    assert_eq!(string_from_chars(&format_usize(0)), "0");
    assert_eq!(string_from_chars(&format_usize(7)), "7");
    assert_eq!(string_from_chars(&format_usize(120)), "120");
    assert_eq!(string_from_chars(&format_usize(98765)), "98765");
    assert_eq!(parse_usize_chars(&format_usize(98765)), Some(98765));
    assert_eq!(parse_usize_chars(&format_usize(0)), Some(0));
}

#[test]
fn lines_split_and_strip_carriage_returns() {
    let v = chars_vec("one\r\ntwo\nthree");
    let ls = lines_vec(&v);
    let texts: Vec<String> = ls.iter().map(|l| string_from_chars(l)).collect();
    assert_eq!(texts, vec!["one", "two", "three"]);
    let trailing = chars_vec("a\n");
    let ls2 = lines_vec(&trailing);
    assert_eq!(ls2.len(), 1);
    assert_eq!(string_from_chars(&ls2[0]), "a");
    let empty = chars_vec("");
    assert_eq!(lines_vec(&empty).len(), 0);
}

#[test]
fn subvec_copies_range() {
    let v = chars_vec("abcdef");
    assert_eq!(string_from_chars(&subvec(&v, 2, 5)), "cde");
}
