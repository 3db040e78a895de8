use zsh_tool_exec::text::{
    chars_of, decimal_i64, decimal_u128, decimal_u64, fitting_prefix, parse_i32, parse_u64,
    round_ratio, split_lines, split_words, string_of, strip_feeds, trim,
};

fn chars(s: &str) -> Vec<char> {
    s.chars().collect()
}

fn text(v: &Vec<char>) -> String {
    v.iter().collect()
}

#[test]
fn characters_and_strings_convert_both_ways() {
    for s in ["", "abc", "日本語 ok", "a\u{0}b"] {
        assert_eq!(chars_of(s), chars(s));
        assert_eq!(string_of(&chars(s)), s);
    }
}

#[test]
fn numbers_are_written_in_decimal() {
    assert_eq!(text(&decimal_u64(0)), "0");
    assert_eq!(text(&decimal_u64(u64::MAX)), "18446744073709551615");
    assert_eq!(text(&decimal_i64(-7)), "-7");
    assert_eq!(text(&decimal_i64(i64::MIN)), "-9223372036854775808");
    assert_eq!(text(&decimal_i64(i64::MAX)), "9223372036854775807");
    assert_eq!(text(&decimal_u128(u128::MAX)), u128::MAX.to_string());
    assert_eq!(text(&decimal_u128(1000)), "1000");
}

#[test]
fn numbers_are_read_like_the_standard_library_reads_them() {
    for s in [
        "0", "7", "+7", "-7", "-0", "+0", "007", "", "+", "-", "1 ", " 1", "1_0", "0x10", "٣",
        "18446744073709551615", "18446744073709551616", "99999999999999999999999",
        "2147483647", "2147483648", "-2147483648", "-2147483649", "++1",
    ] {
        assert_eq!(parse_u64(&chars(s)), s.parse::<u64>().ok(), "u64 of {:?}", s);
        assert_eq!(parse_i32(&chars(s)), s.parse::<i32>().ok(), "i32 of {:?}", s);
    }
}

#[test]
fn white_space_is_trimmed_and_split() {
    assert_eq!(text(&trim(&chars("  a b \t\n"))), "a b");
    assert_eq!(text(&trim(&chars("\u{a0}x\u{3000}"))), "x");
    assert_eq!(text(&trim(&chars("   "))), "");
    assert_eq!(text(&trim(&chars(""))), "");
    let words: Vec<String> = split_words(&chars(" one  two\tthree\n")).iter().map(text).collect();
    assert_eq!(words, vec!["one", "two", "three"]);
    assert!(split_words(&chars(" \n ")).is_empty());
}

#[test]
fn lines_are_split_like_the_standard_library_splits_them() {
    for s in ["", "a", "a\n", "a\nb", "a\r\nb\r\n", "a\n\nb", "\n", "\r\n", "a\r", "a\rb\n", "a\n\r", "\n\n"] {
        let ours: Vec<String> = split_lines(&chars(s)).iter().map(text).collect();
        let theirs: Vec<String> = s.lines().map(|l| l.to_string()).collect();
        assert_eq!(ours, theirs, "lines of {:?}", s);
    }
    assert_eq!(text(&strip_feeds(&chars("a\n\n"))), "a");
    assert_eq!(text(&strip_feeds(&chars("\n"))), "");
    assert_eq!(text(&strip_feeds(&chars("a\n b"))), "a\n b");
}

#[test]
fn prefix_fits_in_bytes() {
    assert_eq!(text(&fitting_prefix(&chars("héllo"), 0)), "");
    assert_eq!(text(&fitting_prefix(&chars("héllo"), 1)), "h");
    assert_eq!(text(&fitting_prefix(&chars("héllo"), 2)), "h");
    assert_eq!(text(&fitting_prefix(&chars("héllo"), 3)), "hé");
    assert_eq!(text(&fitting_prefix(&chars("a😀b"), 4)), "a");
    assert_eq!(text(&fitting_prefix(&chars("a😀b"), 5)), "a😀");
    assert_eq!(text(&fitting_prefix(&chars("abc"), 100)), "abc");
}

#[test]
fn ratios_round_half_to_even() {
    assert_eq!(round_ratio(0, 3), 0);
    assert_eq!(round_ratio(1, 2), 0);
    assert_eq!(round_ratio(3, 2), 2);
    assert_eq!(round_ratio(5, 2), 2);
    assert_eq!(round_ratio(7, 2), 4);
    assert_eq!(round_ratio(200, 3), 67);
    assert_eq!(round_ratio(100, 3), 33);
    assert_eq!(round_ratio(u128::MAX - 1, 1), u128::MAX - 1);
    for (n, d) in [(1u128, 8u128), (3, 8), (5, 8), (250, 1000), (12_500, 1000), (13_500, 1000)] {
        assert_eq!(round_ratio(n, d).to_string(), format!("{:.0}", n as f64 / d as f64));
    }
}
