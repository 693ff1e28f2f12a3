use teruic::text::{
    chars_of, contains_str, decode_utf8_chars, encode_utf8_chars, find_char,
    i64_decimal, join_from, lines, parse_hex_u8, parse_i32, parse_usize, replace_str,
    rfind_char, split_char, split_whitespace, string_of, trimmed, u64_decimal,
};

fn c(s: &str) -> Vec<char> {
    chars_of(s)
}

fn strs(v: Vec<Vec<char>>) -> Vec<String> {
    v.iter().map(|x| string_of(x)).collect()
}

#[test]
fn parse_i32_accepts_signs_and_range() {
    assert_eq!(parse_i32(&c("42")), Some(42));
    assert_eq!(parse_i32(&c("-7")), Some(-7));
    assert_eq!(parse_i32(&c("+3")), Some(3));
    assert_eq!(parse_i32(&c("2147483647")), Some(i32::MAX));
    assert_eq!(parse_i32(&c("-2147483648")), Some(i32::MIN));
    assert_eq!(parse_i32(&c("2147483648")), None);
    assert_eq!(parse_i32(&c("")), None);
    assert_eq!(parse_i32(&c("-")), None);
    assert_eq!(parse_i32(&c("1a")), None);
    assert_eq!(parse_i32(&c(" 1")), None);
}

#[test]
fn parse_usize_and_hex() {
    assert_eq!(parse_usize(&c("0")), Some(0));
    assert_eq!(parse_usize(&c("123")), Some(123));
    assert_eq!(parse_usize(&c("-1")), None);
    assert_eq!(parse_hex_u8(&c("ff")), Some(255));
    assert_eq!(parse_hex_u8(&c("0A")), Some(10));
    assert_eq!(parse_hex_u8(&c("100")), None);
    assert_eq!(parse_hex_u8(&c("g")), None);
    assert_eq!(parse_hex_u8(&c("")), None);
}

#[test]
fn decimals() {
    assert_eq!(string_of(&u64_decimal(0)), "0");
    assert_eq!(string_of(&u64_decimal(1234567890)), "1234567890");
    assert_eq!(string_of(&i64_decimal(-45)), "-45");
    assert_eq!(string_of(&i64_decimal(i64::MIN)), i64::MIN.to_string());
}

#[test]
fn trimming_and_words() {
    assert_eq!(string_of(&trimmed(&c("  a b \t"))), "a b");
    assert_eq!(strs(split_whitespace(&c("  x  yz\t w "))), vec!["x", "yz", "w"]);
    assert!(split_whitespace(&c("   ")).is_empty());
}

#[test]
fn lines_split_like_str_lines() {
    assert_eq!(strs(lines(&c("a\nb\r\nc"))), vec!["a", "b", "c"]);
    assert_eq!(strs(lines(&c("a\n"))), vec!["a"]);
    assert_eq!(strs(lines(&c("\n\nx"))), vec!["", "", "x"]);
    assert!(lines(&c("")).is_empty());
}

#[test]
fn join_split_find_replace() {
    let parts = vec![c("a"), c("b"), c("c")];
    assert_eq!(string_of(&join_from(&parts, 1, &c(", "))), "b, c");
    assert_eq!(strs(split_char(&c("a,,b"), ',')), vec!["a", "", "b"]);
    assert_eq!(find_char(&c("abcb"), 'b'), Some(1));
    assert_eq!(rfind_char(&c("abcb"), 'b'), Some(3));
    assert_eq!(find_char(&c("abc"), 'z'), None);
    assert!(contains_str(&c("hello world"), "o w"));
    assert!(!contains_str(&c("hello"), "world"));
    assert_eq!(string_of(&replace_str(&c("a-b-c"), "-", &c("+="))), "a+=b+=c");
}

#[test]
fn utf8_round_trip() {
    let s = c("héllo ✓");
    let b = encode_utf8_chars(&s);
    assert_eq!(b, "héllo ✓".as_bytes().to_vec());
    assert_eq!(decode_utf8_chars(&b), Some(s));
    assert_eq!(decode_utf8_chars(&vec![0xc3]), None);
}
