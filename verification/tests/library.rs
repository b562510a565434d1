use thinkpoint::error::{ensure_shell_safe, scrub, Error, NEEDS_PASSWORD};
use thinkpoint::num::{decimal_i64, decimal_u64, is_float_literal_exec, parse_i64_exec, parse_u32_exec, parse_u8_exec};
use thinkpoint::text::{lines_of, split_chars, trim_chars, words_of};

fn cs(s: &str) -> Vec<char> {
    s.chars().collect()
}

fn st(v: &[char]) -> String {
    v.iter().collect()
}

#[test]
fn plain_values_pass_the_shell_check() {
    assert!(ensure_shell_safe("90").is_ok());
    assert!(ensure_shell_safe("-0.5 Foo_bar").is_ok());
}

#[test]
fn empty_long_and_odd_values_are_refused() {
    assert_eq!(ensure_shell_safe("").unwrap_err().0, "value is empty");
    assert_eq!(
        ensure_shell_safe(&"9".repeat(65)).unwrap_err().0,
        "value is implausibly long"
    );
    assert!(ensure_shell_safe(&"9".repeat(64)).is_ok());
    assert_eq!(
        ensure_shell_safe("90; rm -rf /").unwrap_err().0,
        "refusing to pass \"90; rm -rf /\" to a shell"
    );
    assert_eq!(
        ensure_shell_safe("a'b").unwrap_err().0,
        "refusing to pass \"a'b\" to a shell"
    );
}

#[test]
fn the_password_sentinel_is_recognised() {
    assert!(Error::needs_password().is_needs_password());
    assert_eq!(Error::needs_password().0, NEEDS_PASSWORD);
    assert!(!Error::new("something else").is_needs_password());
}

#[test]
fn scrubbing_empties_the_string() {
    let mut secret = String::from("hunter2");
    scrub(&mut secret);
    assert!(secret.is_empty());
}

#[test]
fn numbers_print_and_read_back() {
    assert_eq!(st(&decimal_u64(0)), "0");
    assert_eq!(st(&decimal_u64(18446744073709551615)), "18446744073709551615");
    assert_eq!(st(&decimal_i64(-9223372036854775808)), "-9223372036854775808");
    for v in [0i64, 7, -7, 40, 255, i64::MAX, i64::MIN] {
        assert_eq!(parse_i64_exec(&decimal_i64(v)), Some(v));
    }
}

#[test]
fn parsers_follow_the_standard_grammar() {
    assert_eq!(parse_i64_exec(&cs("+12")), Some(12));
    assert_eq!(parse_i64_exec(&cs("-")), None);
    assert_eq!(parse_i64_exec(&cs("9223372036854775808")), None);
    assert_eq!(parse_u8_exec(&cs("255")), Some(255));
    assert_eq!(parse_u8_exec(&cs("256")), None);
    assert_eq!(parse_u32_exec(&cs(" 1")), None);
    assert!(is_float_literal_exec(&cs("0.000000")));
    assert!(is_float_literal_exec(&cs("-1e-3")));
    assert!(is_float_literal_exec(&cs("inf")));
    assert!(!is_float_literal_exec(&cs("\"/dev/input/event10\"")));
    assert!(!is_float_literal_exec(&cs("")));
}

#[test]
fn text_splits_like_the_standard_library() {
    let lines: Vec<String> = lines_of(&cs("a\nb\r\n\nc")).iter().map(|l| st(l)).collect();
    assert_eq!(lines, vec!["a", "b", "", "c"]);
    let words: Vec<String> = words_of(&cs("  1 2\t3 ")).iter().map(|w| st(w)).collect();
    assert_eq!(words, vec!["1", "2", "3"]);
    let fields: Vec<String> = split_chars(&cs("a\tb\t"), '\t').iter().map(|f| st(f)).collect();
    assert_eq!(fields, vec!["a", "b", ""]);
    assert_eq!(st(&trim_chars(&cs(" \t x y \n"))), "x y");
}

#[test]
fn a_refusal_quotes_the_value_it_was_given() {
    assert_eq!(
        thinkpoint::error::shell_refusal("\"a;b\"").0,
        "refusing to pass \"a;b\" to a shell"
    );
}
