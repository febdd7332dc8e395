use mcp_registry::text::{
    append_chars, char_is_whitespace, chars_of, concat_text, contains, same_text, split_lines, split_words, starts_with,
    string_of, trimmed,
};

fn chars(s: &str) -> Vec<char> {
    s.chars().collect()
}

fn text_lines(s: &str) -> Vec<String> {
    split_lines(&chars(s)).iter().map(|l| l.iter().collect()).collect()
}

#[test]
fn characters_and_strings_convert_both_ways() {
    assert_eq!(chars_of("héllo"), vec!['h', 'é', 'l', 'l', 'o']);
    assert_eq!(string_of(&vec!['a', 'ß', 'c']), "aßc");
    assert_eq!(string_of(&chars_of("")), "");
}

#[test]
fn trimming_drops_white_space_at_both_ends_only() {
    assert_eq!(string_of(&trimmed(&chars("  a b \t\n"))), "a b");
    assert_eq!(string_of(&trimmed(&chars("\u{a0}x\u{3000}"))), "x");
    assert_eq!(string_of(&trimmed(&chars("   "))), "");
    assert_eq!(string_of(&trimmed(&chars("x"))), "x");
}

#[test]
fn lines_end_at_line_feeds() {
    assert_eq!(text_lines("a\nb"), vec!["a", "b"]);
    assert_eq!(text_lines("a\nb\n"), vec!["a", "b"]);
    assert_eq!(text_lines("a\n\nb"), vec!["a", "", "b"]);
    assert_eq!(text_lines("\n"), vec![""]);
    assert_eq!(text_lines(""), Vec::<String>::new());
}

#[test]
fn a_carriage_return_counts_only_before_a_line_feed() {
    assert_eq!(text_lines("a\r\nb\r"), vec!["a", "b\r"]);
    assert_eq!(text_lines("a\r\r\n"), vec!["a\r"]);
    assert_eq!(text_lines("a\rb"), vec!["a\rb"]);
}

#[test]
fn lines_agree_with_the_standard_library() {
    for s in ["", "\n", "a", "a\n", "a\r\n\r\nb", "\r\n", "x\ny\r\nz\r", "\n\n\n", "\r"] {
        let expected: Vec<String> = s.lines().map(|l| l.to_string()).collect();
        assert_eq!(text_lines(s), expected);
    }
}

#[test]
fn words_are_runs_without_white_space() {
    assert_eq!(split_words(&chars("  a  bb\tc\n")), vec!["a", "bb", "c"]);
    assert_eq!(split_words(&chars("")), Vec::<String>::new());
    assert_eq!(split_words(&chars(" \t ")), Vec::<String>::new());
    assert_eq!(split_words(&chars("one")), vec!["one"]);
}

#[test]
fn prefix_and_substring_search() {
    assert!(starts_with(&chars("Scope: x"), &chars("Scope:")));
    assert!(!starts_with(&chars("Scop"), &chars("Scope:")));
    assert!(starts_with(&chars("abc"), &chars("")));
    assert!(contains(&chars("xxlocalxx"), &chars("local")));
    assert!(contains(&chars("local"), &chars("local")));
    assert!(contains(&chars("xxlocal"), &chars("local")));
    assert!(!contains(&chars("loca"), &chars("local")));
    assert!(!contains(&chars("lo cal"), &chars("local")));
    assert!(contains(&chars(""), &chars("")));
}

#[test]
fn texts_are_joined_and_compared() {
    assert_eq!(concat_text("ab", "cd"), "abcd");
    assert_eq!(concat_text("", ""), "");
    assert!(same_text("abc", "abc"));
    assert!(!same_text("abc", "abd"));
    assert!(!same_text("abc", "ab"));
    let mut v = chars("ab");
    append_chars(&mut v, &chars("cd"));
    assert_eq!(v, chars("abcd"));
}

#[test]
fn white_space_is_what_the_standard_library_says() {
    for n in 0..=0x10FFFFu32 {
        if let Some(c) = char::from_u32(n) {
            assert_eq!(char_is_whitespace(c), c.is_whitespace(), "U+{:04X}", n);
        }
    }
}

#[test]
fn trimming_and_words_agree_with_the_standard_library() {
    for s in ["", " ", "a", " a ", "\t\u{2003}a b\u{85}", "\u{200b}x\u{200b}", "a\u{a0}b  c\n", "\u{1680}\u{180e}\u{feff}"] {
        assert_eq!(string_of(&trimmed(&chars(s))), s.trim(), "{:?}", s);
        let expected: Vec<String> = s.split_whitespace().map(|w| w.to_string()).collect();
        assert_eq!(split_words(&chars(s)), expected, "{:?}", s);
    }
}
