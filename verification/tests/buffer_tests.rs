use sued::buffer::{
    check_if_line_in_buffer, delete, indent, insert, replace, search, search_text, show,
    substitute, substitute_text, swap, EditOutcome, IndentOutcome, LineCheck, ShowResult,
    SubstituteOutcome, SwapOutcome,
};
use sued::pattern::compile_pattern;

fn buf(lines: &[&str]) -> Vec<String> {
    lines.iter().map(|s| s.to_string()).collect()
}

#[test]
fn check_line_outcomes() {
    let b = buf(&["a", "b"]);
    assert_eq!(check_if_line_in_buffer(&b, 0), LineCheck::InvalidLine);
    assert_eq!(check_if_line_in_buffer(&b, 1), LineCheck::Present);
    assert_eq!(check_if_line_in_buffer(&b, 2), LineCheck::Present);
    assert_eq!(check_if_line_in_buffer(&b, 3), LineCheck::NoLine);
    assert_eq!(check_if_line_in_buffer(&Vec::new(), 1), LineCheck::NoContents);
    assert_eq!(check_if_line_in_buffer(&Vec::new(), 0), LineCheck::InvalidLine);
}

#[test]
fn insert_trims_and_shifts_lines_down() {
    let mut b = buf(&["one", "two"]);
    assert_eq!(insert(&mut b, 2, "  new line \n"), EditOutcome::Applied);
    assert_eq!(b, buf(&["one", "new line", "two"]));
}

#[test]
fn insert_blank_input_is_cancelled() {
    let mut b = buf(&["one"]);
    assert_eq!(insert(&mut b, 1, " \t\n"), EditOutcome::Cancelled);
    assert_eq!(b, buf(&["one"]));
}

#[test]
fn insert_rejects_bad_lines() {
    let mut b = buf(&["one"]);
    assert_eq!(insert(&mut b, 2, "x"), EditOutcome::Rejected(LineCheck::NoLine));
    assert_eq!(insert(&mut b, 0, "x"), EditOutcome::Rejected(LineCheck::InvalidLine));
    let mut e: Vec<String> = Vec::new();
    assert_eq!(insert(&mut e, 1, "x"), EditOutcome::Rejected(LineCheck::NoContents));
    assert!(e.is_empty());
    assert_eq!(b, buf(&["one"]));
}

#[test]
fn replace_changes_only_that_line() {
    let mut b = buf(&["one", "two", "three"]);
    assert_eq!(replace(&mut b, 2, "zwei\r\n"), EditOutcome::Applied);
    assert_eq!(b, buf(&["one", "zwei", "three"]));
    assert_eq!(replace(&mut b, 2, "   "), EditOutcome::Cancelled);
    assert_eq!(replace(&mut b, 4, "x"), EditOutcome::Rejected(LineCheck::NoLine));
    assert_eq!(b, buf(&["one", "zwei", "three"]));
}

#[test]
fn swap_exchanges_two_lines() {
    let mut b = buf(&["a", "b", "c"]);
    assert_eq!(swap(&mut b, 1, 3), SwapOutcome::Swapped);
    assert_eq!(b, buf(&["c", "b", "a"]));
    assert_eq!(swap(&mut b, 3, 1), SwapOutcome::Swapped);
    assert_eq!(b, buf(&["a", "b", "c"]));
}

#[test]
fn swap_refusals() {
    let mut b = buf(&["a", "b"]);
    assert_eq!(swap(&mut b, 2, 2), SwapOutcome::SameLine);
    assert_eq!(swap(&mut b, 0, 2), SwapOutcome::Rejected(LineCheck::InvalidLine, 0));
    assert_eq!(swap(&mut b, 1, 5), SwapOutcome::Rejected(LineCheck::NoLine, 5));
    assert_eq!(swap(&mut b, 5, 0), SwapOutcome::Rejected(LineCheck::NoLine, 5));
    assert_eq!(b, buf(&["a", "b"]));
}

#[test]
fn delete_removes_one_line() {
    let mut b = buf(&["a", "b", "c"]);
    assert_eq!(delete(&mut b, 2), LineCheck::Present);
    assert_eq!(b, buf(&["a", "c"]));
    assert_eq!(delete(&mut b, 3), LineCheck::NoLine);
    assert_eq!(b, buf(&["a", "c"]));
}

#[test]
fn delete_undoes_insert() {
    let before = buf(&["a", "b"]);
    let mut b = before.clone();
    assert_eq!(insert(&mut b, 1, "x"), EditOutcome::Applied);
    assert_eq!(delete(&mut b, 1), LineCheck::Present);
    assert_eq!(b, before);
}

#[test]
fn substitute_replaces_first_match() {
    let mut b = buf(&["foo bar foo", "x"]);
    let p = compile_pattern("fo+").unwrap();
    assert_eq!(substitute(&mut b, 1, &p, "baz"), LineCheck::Present);
    assert_eq!(b, buf(&["baz bar foo", "x"]));
}

#[test]
fn substitute_expands_capture_groups() {
    let mut b = buf(&["Springsteen, Bruce"]);
    let p = compile_pattern(r"([^,\s]+),\s+(\S+)").unwrap();
    assert_eq!(substitute(&mut b, 1, &p, "$2 $1"), LineCheck::Present);
    assert_eq!(b, buf(&["Bruce Springsteen"]));
}

#[test]
fn substitute_without_match_keeps_line() {
    let mut b = buf(&["abc"]);
    let p = compile_pattern("z").unwrap();
    assert_eq!(substitute(&mut b, 1, &p, "y"), LineCheck::Present);
    assert_eq!(b, buf(&["abc"]));
    assert_eq!(substitute(&mut b, 2, &p, "y"), LineCheck::NoLine);
}

#[test]
fn invalid_pattern_is_refused() {
    assert!(compile_pattern("(").is_none());
    assert!(compile_pattern("[a-").is_none());
    assert!(compile_pattern("a|b").is_some());
}

#[test]
fn search_lists_matching_line_numbers() {
    let b = buf(&["apple", "banana", "cherry", "pineapple"]);
    let p = compile_pattern("app").unwrap();
    assert_eq!(search(&b, &p), vec![1, 4]);
    let none = compile_pattern("^z").unwrap();
    assert!(search(&b, &none).is_empty());
    let all = compile_pattern("").unwrap();
    assert_eq!(search(&b, &all), vec![1, 2, 3, 4]);
}

#[test]
fn indent_positive_adds_spaces() {
    let mut b = buf(&["x"]);
    assert_eq!(indent(&mut b, 1, 4), IndentOutcome::Indented);
    assert_eq!(b, buf(&["    x"]));
}

#[test]
fn indent_negative_removes_leading_spaces_only() {
    let mut b = buf(&["    x", "hello", " é"]);
    assert_eq!(indent(&mut b, 1, -2), IndentOutcome::Indented);
    assert_eq!(indent(&mut b, 2, -2), IndentOutcome::Indented);
    assert_eq!(indent(&mut b, 3, -1), IndentOutcome::Indented);
    assert_eq!(b, buf(&["  x", "hello", "é"]));
    assert_eq!(indent(&mut b, 1, -10), IndentOutcome::Indented);
    assert_eq!(indent(&mut b, 1, isize::MIN), IndentOutcome::Indented);
    assert_eq!(b, buf(&["x", "hello", "é"]));
}

#[test]
fn outdent_undoes_indent_on_any_line() {
    let mut b = buf(&["  héllo wörld"]);
    assert_eq!(indent(&mut b, 1, 5), IndentOutcome::Indented);
    assert_eq!(indent(&mut b, 1, -5), IndentOutcome::Indented);
    assert_eq!(b, buf(&["  héllo wörld"]));
}

#[test]
fn indent_level_zero_and_bad_line() {
    let mut b = buf(&["x"]);
    assert_eq!(indent(&mut b, 1, 0), IndentOutcome::InvalidLevel);
    assert_eq!(indent(&mut b, 2, 3), IndentOutcome::Rejected(LineCheck::NoLine));
    assert_eq!(b, buf(&["x"]));
}

#[test]
fn show_numbers_the_range() {
    let b = buf(&["a", "b", "c"]);
    match show(&b, 2, 3) {
        ShowResult::Lines(v) => assert_eq!(v, vec![(2, "b".to_string()), (3, "c".to_string())]),
        ShowResult::NoContents => panic!("expected lines"),
    }
    match show(&b, 1, 0) {
        ShowResult::Lines(v) => assert!(v.is_empty()),
        ShowResult::NoContents => panic!("expected lines"),
    }
    assert!(matches!(show(&Vec::new(), 5, 9), ShowResult::NoContents));
}

#[test]
fn swap_is_symmetric() {
    let mut a = buf(&["1", "2", "3", "4"]);
    let mut b = a.clone();
    assert_eq!(swap(&mut a, 2, 4), SwapOutcome::Swapped);
    assert_eq!(swap(&mut b, 4, 2), SwapOutcome::Swapped);
    assert_eq!(a, b);
    assert_eq!(a, buf(&["1", "4", "3", "2"]));
}

#[test]
fn insert_undoes_delete() {
    let before = buf(&["a", "b", "c"]);
    let mut b = before.clone();
    assert_eq!(delete(&mut b, 2), LineCheck::Present);
    assert_eq!(insert(&mut b, 2, "b"), EditOutcome::Applied);
    assert_eq!(b, before);
}

#[test]
fn substitute_text_checks_line_then_pattern() {
    let mut b = buf(&["foo bar"]);
    assert_eq!(substitute_text(&mut b, 2, "(", "x"), SubstituteOutcome::Rejected(LineCheck::NoLine));
    assert_eq!(substitute_text(&mut b, 1, "(", "x"), SubstituteOutcome::InvalidPattern);
    assert_eq!(b, buf(&["foo bar"]));
    assert_eq!(substitute_text(&mut b, 1, "o+", "0"), SubstituteOutcome::Substituted);
    assert_eq!(b, buf(&["f0 bar"]));
}

#[test]
fn search_text_compiles_the_term() {
    let b = buf(&["one", "two", "three"]);
    assert_eq!(search_text(&b, "t"), Some(vec![2, 3]));
    assert_eq!(search_text(&b, "["), None);
}
