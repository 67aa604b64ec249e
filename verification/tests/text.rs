use adx::text::{
    chars_of, contains, has_prefix, parse_u16, push_decimal, replace_char, same_text, split_text,
};

#[test]
fn characters_in_order() {
    assert_eq!(chars_of("añb"), vec!['a', 'ñ', 'b']);
    assert!(chars_of("").is_empty());
}

#[test]
fn substring_search_is_literal_and_case_sensitive() {
    assert!(contains("androidx.appcompat", "appcompat"));
    assert!(contains("androidx.appcompat", "androidx.appcompat"));
    assert!(contains("androidx.appcompat", "x.a"));
    assert!(contains("androidx.appcompat", ""));
    assert!(contains("", ""));
    assert!(!contains("", "a"));
    assert!(!contains("androidx.appcompat", "Appcompat"));
    assert!(!contains("androidx.appcompat", "androidx.appcompat2"));
    assert!(!contains("androidx.appcompat", "a*t"));
    assert!(!contains("androidxappcompat", "x.a"));
    assert!(contains("aab", "ab"));
    assert!(contains("ñandú", "dú"));
}

#[test]
fn prefixes() {
    assert!(has_prefix("alpha01", "alpha"));
    assert!(has_prefix("alpha", "alpha"));
    assert!(has_prefix("alpha", ""));
    assert!(!has_prefix("alph", "alpha"));
    assert!(!has_prefix("xalpha", "alpha"));
    assert!(!has_prefix("Alpha01", "alpha"));
}

#[test]
fn same_characters() {
    assert!(same_text("rc", "rc"));
    assert!(same_text("", ""));
    assert!(!same_text("rc", "rc1"));
    assert!(!same_text("rc1", "rc"));
    assert!(!same_text("rc", "rd"));
}

#[test]
fn splitting_keeps_empty_pieces() {
    assert_eq!(split_text("1.0.0,1.1.0", ','), vec!["1.0.0", "1.1.0"]);
    assert_eq!(split_text("abc", ','), vec!["abc"]);
    assert_eq!(split_text("", ','), vec![""]);
    assert_eq!(split_text(",", ','), vec!["", ""]);
    assert_eq!(split_text("a,,b,", ','), vec!["a", "", "b", ""]);
    assert_eq!(split_text(",a", ','), vec!["", "a"]);
    assert_eq!(split_text("ä.ö", '.'), vec!["ä", "ö"]);
}

#[test]
fn splitting_agrees_with_std() {
    for text in ["", ",", "a", "a,b", ",,", "a,,b", "1.2.3,4.5.6,", ",x,"] {
        let std: Vec<String> = text.split(',').map(|s| s.to_string()).collect();
        assert_eq!(split_text(text, ','), std);
    }
}

#[test]
fn replacing_one_character() {
    assert_eq!(replace_char("androidx.compose.ui", '.', "/"), "androidx/compose/ui");
    assert_eq!(replace_char("", '.', "/"), "");
    assert_eq!(replace_char("...", '.', "/"), "///");
    assert_eq!(replace_char("abc", '.', "/"), "abc");
    assert_eq!(replace_char("a.b", '.', ""), "ab");
    assert_eq!(replace_char("a.b.", '.', "::"), "a::b::");
    assert_eq!(replace_char("a.b", '.', "."), "a.b");
}

#[test]
fn sixteen_bit_numbers() {
    assert_eq!(parse_u16("0"), Some(0));
    assert_eq!(parse_u16("007"), Some(7));
    assert_eq!(parse_u16("+12"), Some(12));
    assert_eq!(parse_u16("65535"), Some(65535));
    assert_eq!(parse_u16("0000065535"), Some(65535));
    assert_eq!(parse_u16("65536"), None);
    assert_eq!(parse_u16("99999999999999999999999"), None);
    assert_eq!(parse_u16(""), None);
    assert_eq!(parse_u16("+"), None);
    assert_eq!(parse_u16("-1"), None);
    assert_eq!(parse_u16("++1"), None);
    assert_eq!(parse_u16("1+"), None);
    assert_eq!(parse_u16("12a"), None);
    assert_eq!(parse_u16(" 12"), None);
    assert_eq!(parse_u16("1_0"), None);
    assert_eq!(parse_u16("١٢"), None);
}

#[test]
fn sixteen_bit_numbers_agree_with_std() {
    for text in ["0", "1", "+5", "-0", "00", "65535", "65536", "", "+", "a", "1 ", "0x10"] {
        assert_eq!(parse_u16(text), text.parse::<u16>().ok(), "{:?}", text);
    }
}

#[test]
fn decimal_digits_with_padding() {
    let mut out = String::from("v");
    push_decimal(&mut out, 0, 0);
    assert_eq!(out, "v0");
    push_decimal(&mut out, 42, 0);
    assert_eq!(out, "v042");
    let mut padded = String::new();
    push_decimal(&mut padded, 7, 4);
    assert_eq!(padded, "0007");
    let mut wide = String::new();
    push_decimal(&mut wide, 12345, 2);
    assert_eq!(wide, "12345");
    let mut largest = String::new();
    push_decimal(&mut largest, u64::MAX, 3);
    assert_eq!(largest, "18446744073709551615");
    let mut zero = String::new();
    push_decimal(&mut zero, 0, 2);
    assert_eq!(zero, "00");
}
