use ticket::naming::{closed_name, fixed_name, reopened_name};
use ticket::text::{
    parse_usize, replace_all, split_all, take_chars, trim_str, u64_to_decimal,
};
use ticket::{thread_name, to_title_case};

fn chars(s: &str) -> Vec<char> {
    s.chars().collect()
}

#[test]
fn thread_name_joins_id_author_and_content() {
    assert_eq!(thread_name(5, "Alice", "Game crashes"), "5 - Alice - Game crashes");
}

#[test]
fn thread_name_writes_negative_ids_with_a_sign() {
    assert_eq!(thread_name(-3, "a", "b"), "-3 - a - b");
    assert_eq!(thread_name(i32::MIN, "a", "b"), "-2147483648 - a - b");
    assert_eq!(thread_name(0, "", ""), "0 -  - ");
}

#[test]
fn thread_name_is_cut_to_one_hundred_characters() {
    let content = "x".repeat(300);
    let name = thread_name(12, "Bob", &content);
    assert_eq!(name.chars().count(), 100);
    assert!(format!("12 - Bob - {}", content).starts_with(&name));
}

#[test]
fn thread_name_counts_characters_not_bytes() {
    let content = "é".repeat(150);
    let name = thread_name(1, "Zoë", &content);
    assert_eq!(name.chars().count(), 100);
    let expected: String = format!("1 - Zoë - {}", content).chars().take(100).collect();
    assert_eq!(name, expected);
}

#[test]
fn title_case_capitalises_each_word() {
    assert_eq!(to_title_case("hello   WORLD\tfoo"), "Hello World Foo");
    assert_eq!(to_title_case("additional"), "Additional");
    assert_eq!(to_title_case("  "), "");
    assert_eq!(to_title_case(""), "");
}

#[test]
fn title_case_uses_unicode_case_mapping() {
    assert_eq!(to_title_case("ßig ÉCOLE"), "SSig École");
}

#[test]
fn closed_and_fixed_names_carry_their_marker() {
    assert_eq!(closed_name("1 - Bob - crash"), "[Closed] - 1 - Bob - crash");
    assert_eq!(fixed_name("1 - Bob - crash"), "[Fixed] - 1 - Bob - crash");
    let long = "y".repeat(120);
    assert_eq!(closed_name(&long).chars().count(), 100);
    assert_eq!(fixed_name(&long).chars().count(), 100);
}

#[test]
fn reopening_removes_the_markers() {
    assert_eq!(reopened_name("[Closed] - 1 - Bob - crash"), "1 - Bob - crash");
    assert_eq!(reopened_name("[Fixed] - 1 - Bob - crash"), "1 - Bob - crash");
    assert_eq!(reopened_name("[Closed] - [Fixed] - x"), "x");
    assert_eq!(reopened_name("plain"), "plain");
}

#[test]
fn reopen_after_close_or_fix_gives_the_name_back() {
    let name = "7 - Carol - the save file does not load";
    assert_eq!(reopened_name(&closed_name(name)), name);
    assert_eq!(reopened_name(&fixed_name(name)), name);
}

#[test]
fn replace_takes_occurrences_left_to_right() {
    assert_eq!(replace_all("aaa", "aa", "b"), "ba");
    assert_eq!(replace_all("line\\nnext", "\\n", "\n"), "line\nnext");
    assert_eq!(replace_all("", "x", "y"), "");
}

#[test]
fn split_keeps_empty_pieces() {
    let parts = split_all("**A**b", "**");
    assert_eq!(parts, vec![chars(""), chars("A"), chars("b")]);
    assert_eq!(split_all("a***b", "**"), vec![chars("a"), chars("*b")]);
    assert_eq!(split_all("", "**"), vec![chars("")]);
}

#[test]
fn trim_removes_unicode_whitespace_at_both_ends() {
    assert_eq!(trim_str("  a b \u{3000}\n"), "a b");
    assert_eq!(trim_str("\t"), "");
}

#[test]
fn take_chars_keeps_short_strings() {
    assert_eq!(take_chars("abc", 5), "abc");
    assert_eq!(take_chars("abcdef", 2), "ab");
}

#[test]
fn decimal_numerals() {
    assert_eq!(u64_to_decimal(0), "0");
    assert_eq!(u64_to_decimal(1234567890), "1234567890");
    assert_eq!(u64_to_decimal(u64::MAX), u64::MAX.to_string());
}

#[test]
fn parse_usize_follows_std() {
    for s in ["0", "+12", "007", "-1", "", "+", "1 ", "12a", "18446744073709551615", "18446744073709551616", "99999999999999999999999"] {
        assert_eq!(parse_usize(s), s.parse::<usize>().ok(), "{s:?}");
    }
    assert_eq!(parse_usize("+12"), Some(12));
    assert_eq!(parse_usize("-1"), None);
}

#[test]
fn whitespace_test_agrees_with_std_on_every_char() {
    for u in 0..=0x10FFFFu32 {
        if let Some(c) = char::from_u32(u) {
            assert_eq!(ticket::text::char_is_whitespace(c), c.is_whitespace(), "{u:#x}");
        }
    }
}

#[test]
fn title_case_splits_at_a_space() {
    let (a, b) = ("  hello wORLD", "SUPPORT  ticket ");
    assert_eq!(
        to_title_case(&(a.to_string() + " " + b)),
        to_title_case(a) + " " + &to_title_case(b)
    );
}

#[test]
fn title_case_is_idempotent_on_ascii() {
    for s in ["game VERSION", "  a\tb\nc ", "additional", "x1 y2-z", ""] {
        let once = to_title_case(s);
        assert_eq!(to_title_case(&once), once);
    }
}

#[test]
fn title_case_ignores_ascii_letter_case() {
    for s in ["game VERSION", "MiXeD cAsE 42", "additional information"] {
        assert_eq!(to_title_case(&s.to_ascii_lowercase()), to_title_case(s));
        assert_eq!(to_title_case(&s.to_ascii_uppercase()), to_title_case(s));
    }
}
