use simplebench::arith::floor_div;
use simplebench::text::{
    concat3, contains, decimal_string, ends_with, find, normalize_name, parse_i32,
    parse_u64, parse_unsigned, parse_usize, starts_with, text_eq, text_le, to_chars, trim,
};

fn chars(text: &str) -> Vec<char> {
    text.chars().collect()
}

#[test]
fn unsigned_numbers_are_read_as_the_standard_library_reads_them() {
    for text in ["0", "7", "+7", "007", "18446744073709551615", "18446744073709551616", "", "+", "-0", "1 ", " 1", "1_000", "0x10", "١"] {
        assert_eq!(parse_u64(text), text.parse::<u64>().ok(), "{:?}", text);
        assert_eq!(parse_usize(text), text.parse::<usize>().ok(), "{:?}", text);
    }
    assert_eq!(parse_unsigned("255", 255), Some(255));
    assert_eq!(parse_unsigned("256", 255), None);
}

#[test]
fn signed_numbers_are_read_as_the_standard_library_reads_them() {
    for text in ["0", "-0", "+0", "-1", "+1", "2147483647", "2147483648", "-2147483648", "-2147483649", "", "-", "+", "--1", "+-1", "1-", "12a"] {
        assert_eq!(parse_i32(text), text.parse::<i32>().ok(), "{:?}", text);
    }
}

#[test]
fn numbers_are_written_in_decimal() {
    for n in [0, 1, 9, 10, 99, 100, 12_345, u64::MAX] {
        assert_eq!(decimal_string(n), n.to_string());
        assert_eq!(parse_u64(&decimal_string(n)), Some(n));
    }
}

#[test]
fn white_space_is_trimmed_at_both_ends() {
    for text in ["", " ", "a", "  a b  ", "\n\tx\r\n", "\u{a0}x\u{2003}", "x\u{0b}\u{0c}", "\u{85}y", "no space"] {
        assert_eq!(trim(text), text.trim(), "{:?}", text);
    }
}

#[test]
fn searching_in_texts() {
    assert_eq!(to_chars("héllo"), chars("héllo"));
    assert!(starts_with(&chars("libfoo-1.rlib"), &chars("libfoo-")));
    assert!(!starts_with(&chars("lib"), &chars("libfoo-")));
    assert!(starts_with(&chars("abc"), &chars("")));
    assert!(ends_with(&chars("libfoo-1.rlib"), &chars(".rlib")));
    assert!(!ends_with(&chars("rlib"), &chars(".rlib")));
    assert!(ends_with(&chars("abc"), &chars("")));
    assert_eq!(find(&chars("a::b::c"), &chars("::")), Some(1));
    assert_eq!(find(&chars("a::b::c"), &chars(":::")), None);
    assert_eq!(find(&chars("abc"), &chars("")), Some(0));
    assert_eq!(find(&chars(""), &chars("")), Some(0));
    assert_eq!(find(&chars("abc"), &chars("abcd")), None);
    assert_eq!(find(&chars("aab"), &chars("ab")), Some(1));
    assert!(contains("vector_normalize", "or_no"));
    assert!(!contains("vector_normalize", "on"));
}

#[test]
fn texts_are_ordered_as_in_a_dictionary() {
    let texts = ["", "a", "ab", "b", "B", "2025-01-01T00-00-00", "2025-01-01T00-00-01", "é", "z"];
    for a in texts {
        for b in texts {
            assert_eq!(text_le(a, b), a <= b, "{:?} {:?}", a, b);
            assert_eq!(text_eq(a, b), a == b, "{:?} {:?}", a, b);
        }
    }
}

#[test]
fn texts_are_joined() {
    assert_eq!(simplebench::text::concat("ab", "cd"), "abcd");
    assert_eq!(simplebench::text::concat("", ""), "");
    assert_eq!(concat3("a", "=", "b"), "a=b");
    assert_eq!(normalize_name("my-bench-crate"), "my_bench_crate");
    assert_eq!(normalize_name("plain_name"), "plain_name");
    assert_eq!(normalize_name("-é-"), "_é_");
    assert_eq!(normalize_name(""), "");
}

#[test]
fn division_rounds_down() {
    assert_eq!(floor_div(7, 2), 3);
    assert_eq!(floor_div(-7, 2), -4);
    assert_eq!(floor_div(-8, 2), -4);
    assert_eq!(floor_div(0, 5), 0);
    assert_eq!(floor_div(-1, 1_000_000), -1);
    assert_eq!(floor_div(1, 1_000_000), 0);
}
