use alias_tips::text::{
    byte_length, chars_of, find_in, has_token_prefix, has_word_before_space,
    is_whitespace, joined, slice_of, split_lines, split_words, starts_with, trim_in,
    unquote_in,
};

fn chars(s: &str) -> Vec<char> {
    s.chars().collect()
}

#[test]
fn white_space_is_what_std_calls_white_space() {
    for code in 0u32..=0x10FFFF {
        if let Some(c) = char::from_u32(code) {
            assert_eq!(is_whitespace(c), c.is_whitespace(), "U+{:04X}", code);
        }
    }
}

#[test]
fn white_space_examples() {
    assert!(is_whitespace(' '));
    assert!(is_whitespace('\t'));
    assert!(is_whitespace('\n'));
    assert!(is_whitespace('\u{a0}'));
    assert!(is_whitespace('\u{3000}'));
    assert!(!is_whitespace('a'));
    assert!(!is_whitespace('\u{200b}'));
    assert!(!is_whitespace('\u{180e}'));
}

#[test]
fn chars_of_gives_every_character() {
    assert_eq!(chars_of("aé😀"), vec!['a', 'é', '😀']);
    assert_eq!(chars_of(""), Vec::<char>::new());
}

#[test]
fn slice_of_counts_characters_not_bytes() {
    assert_eq!(slice_of("aé😀b", 1, 3), "é😀");
    assert_eq!(slice_of("abc", 0, 3), "abc");
    assert_eq!(slice_of("abc", 2, 2), "");
}

#[test]
fn joined_puts_one_text_after_the_other() {
    assert_eq!(joined("git ", "co"), "git co");
    assert_eq!(joined("", ""), "");
}

#[test]
fn byte_length_counts_utf8_bytes() {
    assert_eq!(byte_length(""), 0);
    assert_eq!(byte_length("abc"), 3);
    assert_eq!(byte_length("é"), 2);
    assert_eq!(byte_length("€"), 3);
    assert_eq!(byte_length("😀"), 4);
    assert_eq!(byte_length("a😀é"), 7);
}

#[test]
fn starts_with_is_prefix() {
    assert!(starts_with(&chars("git status"), &chars("git")));
    assert!(starts_with(&chars("git"), &chars("")));
    assert!(!starts_with(&chars("gi"), &chars("git")));
    assert!(!starts_with(&chars("got status"), &chars("git")));
}

#[test]
fn token_prefix_ends_at_a_space_or_at_the_end() {
    assert!(has_token_prefix(&chars("git status"), &chars("git")));
    assert!(has_token_prefix(&chars("git"), &chars("git")));
    assert!(!has_token_prefix(&chars("github"), &chars("git")));
    assert!(!has_token_prefix(&chars("git\tstatus"), &chars("git")));
    assert!(!has_token_prefix(&chars("gi"), &chars("git")));
}

#[test]
fn word_before_space_needs_the_space() {
    assert!(has_word_before_space(&chars("gR -v"), &chars("gR")));
    assert!(!has_word_before_space(&chars("gR"), &chars("gR")));
    assert!(!has_word_before_space(&chars("gRv -v"), &chars("gR")));
}

#[test]
fn find_in_finds_the_first_in_the_window() {
    let v = chars("a=b=c");
    assert_eq!(find_in(&v, 0, 5, '='), 1);
    assert_eq!(find_in(&v, 2, 5, '='), 3);
    assert_eq!(find_in(&v, 4, 5, '='), 5);
    assert_eq!(find_in(&v, 0, 1, '='), 1);
    assert_eq!(find_in(&v, 0, 0, '='), 0);
}

#[test]
fn trim_in_gives_the_inner_window() {
    let v = chars("  a b \t");
    assert_eq!(trim_in(&v, 0, v.len()), (2, 5));
    assert_eq!(trim_in(&v, 3, v.len()), (4, 5));
    let blank = chars(" \n ");
    let (a, b) = trim_in(&blank, 0, 3);
    assert_eq!(a, b);
}

#[test]
fn unquote_in_takes_one_quote_from_each_end() {
    let v = chars("'a'");
    assert_eq!(unquote_in(&v, 0, 3), (1, 2));
    let v = chars("''a''");
    assert_eq!(unquote_in(&v, 0, 5), (1, 4));
    let v = chars("'a");
    assert_eq!(unquote_in(&v, 0, 2), (1, 2));
    let v = chars("a'");
    assert_eq!(unquote_in(&v, 0, 2), (0, 1));
    let v = chars("'");
    assert_eq!(unquote_in(&v, 0, 1), (1, 1));
    let v = chars("a");
    assert_eq!(unquote_in(&v, 0, 1), (0, 1));
}

#[test]
fn split_lines_examples() {
    assert_eq!(split_lines(""), Vec::<String>::new());
    assert_eq!(split_lines("\n"), vec![""]);
    assert_eq!(split_lines("a"), vec!["a"]);
    assert_eq!(split_lines("a\n"), vec!["a"]);
    assert_eq!(split_lines("a\nb"), vec!["a", "b"]);
    assert_eq!(split_lines("a\r\nb\r\n"), vec!["a", "b"]);
    assert_eq!(split_lines("a\n\nb"), vec!["a", "", "b"]);
    assert_eq!(split_lines("a\r"), vec!["a\r"]);
    assert_eq!(split_lines("a\rb\n"), vec!["a\rb"]);
    assert_eq!(split_lines("a\r\r\n"), vec!["a\r"]);
}

#[test]
fn split_lines_agrees_with_std() {
    let samples = [
        "", "\n", "\r\n", "\r", "a", "a\n", "a\r\n", "a\r", "\na", "\n\n", "a\n\nb", "a\rb\nc",
        "x\r\r\n", "é😀\n\u{2028}\nz", "alias.co checkout\nalias.st status\n", "\r\n\r\n",
        "one\ntwo\r\nthree\rfour\n\rfive",
    ];
    for s in samples {
        let expected: Vec<String> = s.lines().map(|l| l.to_string()).collect();
        assert_eq!(split_lines(s), expected, "{:?}", s);
    }
}

#[test]
fn split_words_examples() {
    assert_eq!(split_words(""), Vec::<String>::new());
    assert_eq!(split_words("   "), Vec::<String>::new());
    assert_eq!(split_words("a"), vec!["a"]);
    assert_eq!(split_words(" a  b\tc\n"), vec!["a", "b", "c"]);
    assert_eq!(split_words("ls gst"), vec!["ls", "gst"]);
}

#[test]
fn split_words_agrees_with_std() {
    let samples = [
        "", " ", "a", " a", "a ", "a b", "a  b", "\ta\nb\r\nc ", "\u{3000}x\u{a0}y", "é 😀",
        "one two  three   four", "a\u{200b}b c",
    ];
    for s in samples {
        let expected: Vec<String> = s.split_whitespace().map(|w| w.to_string()).collect();
        assert_eq!(split_words(s), expected, "{:?}", s);
    }
}
