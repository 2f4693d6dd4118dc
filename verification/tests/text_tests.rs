use sued::command::{parse_isize, parse_usize, strip_line_end};
use sued::file::{expand_home, open_lines, save_text};
use sued::text::{is_whitespace, split_at_char, trim, join_from};
use sued::pattern::split_pattern_replacement;

#[test]
fn whitespace_agrees_with_std_on_every_char() {
    for u in 0u32..=0x10FFFF {
        if let Some(c) = char::from_u32(u) {
            assert_eq!(is_whitespace(c), c.is_whitespace(), "char U+{:04X}", u);
        }
    }
}

#[test]
fn trim_agrees_with_std() {
    for s in ["", "  a b  ", "\t\nx\r\n", "\u{3000}y\u{a0}", "   ", "é ", " \u{2028}z\u{85}"] {
        assert_eq!(trim(s), s.trim());
    }
}

#[test]
fn parse_usize_agrees_with_std() {
    let cases = [
        "", "0", "42", "+7", "-0", "-3", "+", "-", " 1", "1 ", "12a", "007",
        "18446744073709551615", "18446744073709551616", "99999999999999999999999", "1_0",
    ];
    for s in cases {
        assert_eq!(parse_usize(s), s.parse::<usize>().ok(), "input {:?}", s);
    }
}

#[test]
fn parse_isize_agrees_with_std() {
    let cases = [
        "", "0", "-0", "42", "+7", "-3", "+", "-", "--1", "+-1", " 1", "12a",
        "9223372036854775807", "9223372036854775808", "-9223372036854775808",
        "-9223372036854775809", "-99999999999999999999",
    ];
    for s in cases {
        assert_eq!(parse_isize(s), s.parse::<isize>().ok(), "input {:?}", s);
    }
}

#[test]
fn strip_line_end_removes_all_trailing_breaks() {
    assert_eq!(strip_line_end("abc\r\n"), "abc");
    assert_eq!(strip_line_end("abc\n\r\n\r"), "abc");
    assert_eq!(strip_line_end("a\nb\n"), "a\nb");
    assert_eq!(strip_line_end("\n"), "");
}

#[test]
fn split_at_char_agrees_with_std() {
    for s in ["", " ", "a b  c", "~save my file.txt", "  x"] {
        let mine = split_at_char(s, ' ');
        let theirs: Vec<String> = s.split(' ').map(|x| x.to_string()).collect();
        assert_eq!(mine, theirs);
        assert_eq!(join_from(&mine, 0, ' '), s);
    }
}

#[test]
fn join_from_skips_leading_words() {
    let w: Vec<String> = ["~save", "my", "file"].iter().map(|s| s.to_string()).collect();
    assert_eq!(join_from(&w, 1, ' '), "my file");
    assert_eq!(join_from(&w, 3, ' '), "");
}

#[test]
fn open_lines_agrees_with_std_lines() {
    for s in ["", "a", "a\n", "a\nb", "a\r\nb\r\n", "\n\n", "a\rb", "x\r", "é\nü\r\n"] {
        let mine = open_lines(s);
        let theirs: Vec<String> = s.lines().map(|l| l.to_owned()).collect();
        assert_eq!(mine, theirs, "input {:?}", s);
    }
}

#[test]
fn save_text_joins_lines() {
    assert_eq!(save_text(&Vec::new()), None);
    let b: Vec<String> = vec!["a".into(), "".into(), "c".into()];
    assert_eq!(save_text(&b), Some("a\n\nc".to_string()));
}

#[test]
fn open_reads_back_what_save_wrote() {
    let b: Vec<String> = vec!["first".into(), "".into(), "third line".into()];
    let text = save_text(&b).unwrap();
    assert_eq!(open_lines(&text), b);
}

#[test]
fn split_pattern_replacement_basic() {
    assert_eq!(split_pattern_replacement("pat/rep"), vec!["pat", "rep"]);
    assert_eq!(split_pattern_replacement("abc"), vec!["abc"]);
    assert_eq!(split_pattern_replacement("abc/"), vec!["abc"]);
    assert_eq!(split_pattern_replacement("/x"), vec!["", "x"]);
    assert!(split_pattern_replacement("").is_empty());
}

#[test]
fn split_pattern_replacement_escaped_slash() {
    assert_eq!(split_pattern_replacement(r"a\/b/c"), vec![r"a\/b", "c"]);
    assert_eq!(split_pattern_replacement(r"a\\/b"), vec![r"a\\", "b"]);
}

#[test]
fn split_pattern_replacement_takes_text_between_slashes() {
    assert_eq!(split_pattern_replacement("a/b/c"), vec!["a", "b", "c"]);
    assert_eq!(split_pattern_replacement("ab/c/d"), vec!["ab", "c", "d"]);
    assert_eq!(split_pattern_replacement("é/ü/"), vec!["é", "ü"]);
    assert_eq!(split_pattern_replacement("a//b"), vec!["a", "", "b"]);
}

#[test]
fn trim_twice_is_trim_once() {
    for s in ["  a  ", "\u{3000} b \t", "", "x"] {
        let once = trim(s);
        assert_eq!(trim(&once), once);
    }
}

#[test]
fn expand_home_leaves_other_names() {
    assert_eq!(expand_home("notes.txt"), "notes.txt");
    assert_eq!(expand_home("~other/notes.txt"), "~other/notes.txt");
    assert_eq!(expand_home("a~/b"), "a~/b");
    let expanded = expand_home("~/notes.txt");
    assert!(expanded.ends_with("/notes.txt"));
}
