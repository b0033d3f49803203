use halo2_extr::text::{
    chars_of, contains_char, extend_chars, lines, matches_at, parse_decimal, push_chars,
    push_decimal, replace, same_text, slice_of, starts_with, string_of,
};

fn chars(s: &str) -> Vec<char> {
    s.chars().collect()
}

fn decimal(n: u128) -> String {
    let mut out = String::new();
    push_decimal(&mut out, n);
    out
}

fn replaced(s: &str, from: &str, to: &str) -> String {
    replace(&chars(s), &chars(from), &chars(to)).into_iter().collect()
}

fn split(s: &str) -> Vec<String> {
    lines(&chars(s)).into_iter().map(|l| l.into_iter().collect()).collect()
}

fn std_lines(s: &str) -> Vec<String> {
    s.lines().map(|l| l.to_string()).collect()
}

#[test]
fn chars_of_keeps_every_character() {
    assert_eq!(chars_of("a∧b ℕ"), vec!['a', '∧', 'b', ' ', 'ℕ']);
    assert_eq!(chars_of(""), Vec::<char>::new());
}

#[test]
fn string_of_gives_the_text_back() {
    assert_eq!(string_of(&chars("λ row => 0")), "λ row => 0");
    assert_eq!(string_of(&chars_of("∀ row : ℕ")), "∀ row : ℕ");
}

#[test]
fn push_chars_appends() {
    let mut out = String::from("ab");
    push_chars(&mut out, &chars("cd"));
    assert_eq!(out, "abcd");
    let mut v = chars("ab");
    extend_chars(&mut v, &chars("cd"));
    assert_eq!(v, chars("abcd"));
}

#[test]
fn decimal_of_small_numbers() {
    assert_eq!(decimal(0), "0");
    assert_eq!(decimal(7), "7");
    assert_eq!(decimal(9), "9");
    assert_eq!(decimal(10), "10");
    assert_eq!(decimal(101), "101");
    assert_eq!(decimal(1234567890), "1234567890");
}

#[test]
fn decimal_of_large_numbers() {
    assert_eq!(decimal(u64::MAX as u128), "18446744073709551615");
    assert_eq!(decimal(u64::MAX as u128 + 1), "18446744073709551616");
    assert_eq!(decimal(u128::MAX), "340282366920938463463374607431768211455");
}

#[test]
fn decimal_appends_to_what_is_there() {
    let mut out = String::from("copy_");
    push_decimal(&mut out, 42);
    assert_eq!(out, "copy_42");
}

#[test]
fn parse_decimal_reads_numerals() {
    assert_eq!(parse_decimal(&chars("0")), Some(0));
    assert_eq!(parse_decimal(&chars("42")), Some(42));
    assert_eq!(parse_decimal(&chars("007")), Some(7));
    assert_eq!(parse_decimal(&chars("1234567890")), Some(1234567890));
}

#[test]
fn parse_decimal_refuses_what_is_no_numeral() {
    assert_eq!(parse_decimal(&chars("")), None);
    assert_eq!(parse_decimal(&chars("12a")), None);
    assert_eq!(parse_decimal(&chars("a12")), None);
    assert_eq!(parse_decimal(&chars("+5")), None);
    assert_eq!(parse_decimal(&chars("-5")), None);
    assert_eq!(parse_decimal(&chars(" 5")), None);
    assert_eq!(parse_decimal(&chars("٣")), None);
}

#[test]
fn parse_decimal_stops_at_the_largest_index() {
    let max = usize::MAX.to_string();
    assert_eq!(parse_decimal(&chars(&max)), Some(usize::MAX));
    let above = (usize::MAX as u128 + 1).to_string();
    assert_eq!(parse_decimal(&chars(&above)), None);
    assert_eq!(parse_decimal(&chars("99999999999999999999999999999999")), None);
    assert_eq!(parse_decimal(&chars("99999999999999999999999999999999x")), None);
}

#[test]
fn parse_decimal_reads_back_what_decimal_writes() {
    for n in [0usize, 1, 9, 10, 99, 100, 65535, 1 << 20, usize::MAX] {
        assert_eq!(parse_decimal(&chars(&decimal(n as u128))), Some(n));
    }
}

#[test]
fn matches_at_finds_the_pattern_in_place() {
    let s = chars("S0 * A1@0");
    assert!(matches_at(&s, 0, &chars("S0")));
    assert!(matches_at(&s, 5, &chars("A1@0")));
    assert!(!matches_at(&s, 5, &chars("A1@00")));
    assert!(!matches_at(&s, 1, &chars("S0")));
    assert!(matches_at(&s, 9, &chars("")));
    assert!(!matches_at(&s, 9, &chars("x")));
}

#[test]
fn starts_with_compares_the_beginning() {
    assert!(starts_with(&chars("Instance 0 1"), &chars("Instance ")));
    assert!(!starts_with(&chars("Instance"), &chars("Instance ")));
    assert!(!starts_with(&chars(" Instance 0"), &chars("Instance ")));
    assert!(starts_with(&chars("abc"), &chars("")));
}

#[test]
fn contains_char_looks_at_every_character() {
    assert!(contains_char(&chars("R1CS constraint:"), ':'));
    assert!(contains_char(&chars(":"), ':'));
    assert!(!contains_char(&chars("S0 * A1@0"), ':'));
    assert!(!contains_char(&chars(""), ':'));
}

#[test]
fn same_text_compares_all_of_both() {
    assert!(same_text(&chars("Advice"), &chars("Advice")));
    assert!(!same_text(&chars("Advice"), &chars("Advic")));
    assert!(!same_text(&chars("Advice"), &chars("Advicf")));
    assert!(same_text(&chars(""), &chars("")));
}

#[test]
fn slice_of_takes_a_part() {
    assert_eq!(slice_of(&chars("abcdef"), 1, 4), chars("bcd"));
    assert_eq!(slice_of(&chars("abcdef"), 0, 6), chars("abcdef"));
    assert_eq!(slice_of(&chars("abcdef"), 3, 3), chars(""));
}

#[test]
fn replace_takes_every_occurrence() {
    assert_eq!(replaced("A 1 + A 2", "A ", "ctx.Advice "), "ctx.Advice 1 + ctx.Advice 2");
    assert_eq!(replaced("a@b@c", "@", " "), "a b c");
    assert_eq!(replaced("nothing here", "xyz", "!"), "nothing here");
    assert_eq!(replaced("", "a", "b"), "");
    assert_eq!(replaced("abc", "abc", ""), "");
    assert_eq!(replaced("abc", "abcd", "x"), "abc");
}

#[test]
fn replace_goes_from_left_to_right_without_overlap() {
    assert_eq!(replaced("aaa", "aa", "b"), "ba");
    assert_eq!(replaced("aaaa", "aa", "b"), "bb");
    assert_eq!(replaced("ababa", "aba", "x"), "xba");
    assert_eq!(replaced("aa", "a", "aa"), "aaaa");
}

#[test]
fn replace_with_an_empty_pattern_changes_nothing() {
    assert_eq!(replaced("abc", "", "x"), "abc");
    assert_eq!(replaced("", "", "x"), "");
}

#[test]
fn replace_agrees_with_the_standard_library() {
    let cases = [
        ("A 1 (row + 0) - A 2 (row + -1)", "A ", "ctx.Advice "),
        ("(Instance 0 1) + Instance 2 3", " Instance", " ctx.Instance"),
        ("(Instance 0 1) + (Instance 2 3)", "(Instance", "(ctx.Instance"),
        ("aaaaa", "aa", "a"),
        ("∀ row : ℕ, ℕ", "ℕ", "Nat"),
    ];
    for (s, from, to) in cases {
        assert_eq!(replaced(s, from, to), s.replace(from, to));
    }
}

#[test]
fn lines_end_at_line_feeds() {
    assert_eq!(split("a\nb"), vec!["a", "b"]);
    assert_eq!(split("a\nb\n"), vec!["a", "b"]);
    assert_eq!(split("a\n\nb"), vec!["a", "", "b"]);
    assert_eq!(split("\n"), vec![""]);
    assert_eq!(split("\n\n"), vec!["", ""]);
    assert_eq!(split(""), Vec::<String>::new());
    assert_eq!(split("one line"), vec!["one line"]);
}

#[test]
fn lines_drop_a_carriage_return_before_a_line_feed_only() {
    assert_eq!(split("a\r\nb\r\n"), vec!["a", "b"]);
    assert_eq!(split("a\rb\n"), vec!["a\rb"]);
    assert_eq!(split("a\r"), vec!["a\r"]);
    assert_eq!(split("a\r\r\n"), vec!["a\r"]);
    assert_eq!(split("\r\n"), vec![""]);
}

#[test]
fn lines_agree_with_the_standard_library() {
    let cases = [
        "",
        "\n",
        "a",
        "a\n",
        "a\nb",
        "a\r\nb",
        "a\r",
        "\r",
        "\r\n\r\n",
        "R1CS constraint:\n- R1CS:\n  S0 * (A0@0 * A1@0 - A2@0)\nTotal gates: 1\n",
        "x\n\n\ny\r\n\r\nz",
    ];
    for s in cases {
        assert_eq!(split(s), std_lines(s), "lines of {:?}", s);
    }
}
