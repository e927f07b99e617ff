use discord_llm_bot::text::{
    first_index_of, split_by_str, chars_of, contains_str, decimal_chars, decimal_chars_i64, find_char, first_line_of, parse_digits, parse_i64,
    replace_str, rfind_char, split_on, split_words, trim_ws, truncate_chars, u64_to_string, utf8_len_of,
};

fn s(v: &[char]) -> String {
    v.iter().collect()
}

#[test]
fn text_integers() {
    assert_eq!(u64_to_string(0), "0");
    assert_eq!(u64_to_string(u64::MAX), "18446744073709551615");
    assert_eq!(s(&decimal_chars(1203)), "1203");
    assert_eq!(s(&decimal_chars_i64(-45)), "-45");
    assert_eq!(s(&decimal_chars_i64(i64::MIN)), "-9223372036854775808");
    assert_eq!(parse_digits(&chars_of("0042"), 100), Some(42));
    assert_eq!(parse_digits(&chars_of("101"), 100), None);
    assert_eq!(parse_digits(&chars_of(""), 100), None);
    assert_eq!(parse_digits(&chars_of("4a"), 100), None);
    assert_eq!(parse_i64(&chars_of("-100123")), Some(-100123));
    assert_eq!(parse_i64(&chars_of("+7")), Some(7));
    assert_eq!(parse_i64(&chars_of("-9223372036854775808")), Some(i64::MIN));
    assert_eq!(parse_i64(&chars_of("9223372036854775808")), None);
    assert_eq!(parse_i64(&chars_of("-")), None);
    assert_eq!(parse_i64(&chars_of(" 1")), None);
}

#[test]
fn text_search_and_replace() {
    let hay = chars_of("a-b-c");
    assert_eq!(find_char(&hay, '-'), Some(1));
    assert_eq!(rfind_char(&hay, '-'), Some(3));
    assert_eq!(find_char(&hay, 'z'), None);
    assert!(contains_str(&hay, "b-c"));
    assert_eq!(s(&replace_str(&chars_of("aaa"), "aa", "b")), "ba");
    assert_eq!(s(&replace_str(&chars_of("clone|bob"), "|", "_")), "clone_bob");
}

#[test]
fn text_splitting_and_trimming() {
    let parts: Vec<String> = split_on(&chars_of("a,,b,"), ',').iter().map(|p| s(p)).collect();
    assert_eq!(parts, vec!["a", "", "b", ""]);
    let words: Vec<String> = split_words(&chars_of("  one\ttwo \n three ")).iter().map(|p| s(p)).collect();
    assert_eq!(words, vec!["one", "two", "three"]);
    assert_eq!(s(&trim_ws(&chars_of(" \t x y \n"))), "x y");
    assert_eq!(s(&first_line_of(&chars_of("first\r\nsecond"))), "first");
    assert_eq!(s(&first_line_of(&chars_of("only"))), "only");
}

#[test]
fn text_lengths() {
    assert_eq!(utf8_len_of(&chars_of("aé€😀")), 1 + 2 + 3 + 4);
    assert_eq!(s(&truncate_chars(&chars_of("abcdef"), 3)), "abc...");
    assert_eq!(s(&truncate_chars(&chars_of("abc"), 3)), "abc");
}

#[test]
fn text_split_by_pattern() {
    let parts: Vec<String> = split_by_str(&chars_of("aXYbXYXYc"), &chars_of("XY")).iter().map(|p| s(p)).collect();
    assert_eq!(parts, vec!["a", "b", "", "c"]);
    let parts: Vec<String> = split_by_str(&chars_of("aaa"), &chars_of("aa")).iter().map(|p| s(p)).collect();
    assert_eq!(parts, vec!["", "a"]);
    let parts: Vec<String> = split_by_str(&chars_of(""), &chars_of("x")).iter().map(|p| s(p)).collect();
    assert_eq!(parts, vec![""]);
    assert_eq!(first_index_of(&chars_of("abcabc"), &chars_of("ca")), Some(2));
    assert_eq!(first_index_of(&chars_of("abc"), &chars_of("x")), None);
}
