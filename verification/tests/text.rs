use particle_node::modules::strip_backtrace;
use particle_node::text::{chars_of, cut_before, ends_with, find, string_of};

fn chars(s: &str) -> Vec<char> {
    s.chars().collect()
}

#[test]
fn chars_of_keeps_order() {
    assert_eq!(chars_of("héllo"), vec!['h', 'é', 'l', 'l', 'o']);
    assert_eq!(chars_of(""), Vec::<char>::new());
}

#[test]
fn string_of_takes_range() {
    let v = chars("héllo world");
    assert_eq!(string_of(&v, 0, 5), "héllo");
    assert_eq!(string_of(&v, 6, 11), "world");
    assert_eq!(string_of(&v, 3, 3), "");
}

#[test]
fn ends_with_cases() {
    assert!(ends_with(&chars("abc.wasm"), &chars(".wasm")));
    assert!(ends_with(&chars(".wasm"), &chars(".wasm")));
    assert!(ends_with(&chars("abc"), &chars("")));
    assert!(!ends_with(&chars("wasm"), &chars(".wasm")));
    assert!(!ends_with(&chars("abc.wasm2"), &chars(".wasm")));
}

#[test]
fn find_first_position() {
    assert_eq!(find(&chars("abcabc"), &chars("bc")), Some(1));
    assert_eq!(find(&chars("abcabc"), &chars("abc")), Some(0));
    assert_eq!(find(&chars("abcabc"), &chars("cab")), Some(2));
    assert_eq!(find(&chars("abcabc"), &chars("")), Some(0));
    assert_eq!(find(&chars("abcabc"), &chars("abcd")), None);
    assert_eq!(find(&chars("abc"), &chars("abcabc")), None);
    assert_eq!(find(&chars(""), &chars("")), Some(0));
    assert_eq!(find(&chars("aab"), &chars("ab")), Some(1));
}

#[test]
fn cut_before_first_occurrence() {
    assert_eq!(cut_before("one two one two", "two"), "one ");
    assert_eq!(cut_before("one two", "three"), "one two");
    assert_eq!(cut_before("one two", "one"), "");
}

#[test]
fn strip_backtrace_cuts_at_marker() {
    let message = "load config failed\n\nStack backtrace:\n   0: main\n   1: start";
    assert_eq!(strip_backtrace(message), "load config failed\n\n");
}

#[test]
fn strip_backtrace_keeps_message_without_marker() {
    assert_eq!(strip_backtrace("invalid module name"), "invalid module name");
    assert_eq!(strip_backtrace(""), "");
    assert_eq!(strip_backtrace("Stack backtrace"), "Stack backtrace");
}

#[test]
fn strip_backtrace_cuts_at_first_marker() {
    let message = "a Stack backtrace: b Stack backtrace: c";
    assert_eq!(strip_backtrace(message), "a ");
}
