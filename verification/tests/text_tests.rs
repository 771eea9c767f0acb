use llm_test_api::text::{
    chars_of, contains_chars, push_decimal, push_str, starts_with_chars, string_from_chars,
    trim_end_char, trim_start_matches,
};

#[test]
fn prefix_is_removed_repeatedly() {
    assert_eq!(trim_start_matches("Bearer Bearer x", "Bearer "), "x");
    assert_eq!(trim_start_matches("abc", ""), "abc");
    assert_eq!(trim_start_matches("Bear", "Bearer "), "Bear");
}

#[test]
fn trailing_character_is_removed_repeatedly() {
    assert_eq!(trim_end_char("https://a.b///", '/'), "https://a.b");
    assert_eq!(trim_end_char("///", '/'), "");
    assert_eq!(trim_end_char("x/y", '/'), "x/y");
}

#[test]
fn substring_and_prefix_search() {
    let hay = chars_of("hello world");
    assert!(contains_chars(&hay, &chars_of("o w")));
    assert!(contains_chars(&hay, &chars_of("")));
    assert!(!contains_chars(&hay, &chars_of("worlds")));
    assert!(starts_with_chars(&hay, &chars_of("hell")));
    assert!(!starts_with_chars(&hay, &chars_of("world")));
}

#[test]
fn decimal_and_string_building() {
    let mut s = String::from("n=");
    push_decimal(&mut s, 0);
    push_str(&mut s, ",");
    push_decimal(&mut s, 18446744073709551615);
    assert_eq!(s, "n=0,18446744073709551615");
    assert_eq!(string_from_chars(&vec!['a', 'é', 'z']), "aéz");
}
