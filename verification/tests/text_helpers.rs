use soundfiller_studio::text::{chars_of, contains_text, find_char_from, same_text};
use soundfiller_studio::youtube::first_line;

#[test]
fn chars_are_collected_in_order() {
    assert_eq!(chars_of("aé—z"), vec!['a', 'é', '—', 'z']);
    assert!(chars_of("").is_empty());
}

#[test]
fn texts_compare_by_characters() {
    assert!(same_text("done", "done"));
    assert!(!same_text("done", "Done"));
    assert!(!same_text("done", "don"));
    assert!(same_text("", ""));
}

#[test]
fn substring_search() {
    assert!(contains_text("abcabd", "abd"));
    assert!(!contains_text("abcab", "abd"));
    assert!(contains_text("x", ""));
    assert!(!contains_text("", "x"));
    assert!(contains_text("youtube.com/watch", "youtube.com/watch"));
}

#[test]
fn char_search_from_a_position() {
    let v = chars_of("a%b%");
    assert_eq!(find_char_from(&v, 0, '%'), 1);
    assert_eq!(find_char_from(&v, 0, 'z'), 4);
}

#[test]
fn first_line_splits_like_str_lines() {
    assert_eq!(first_line("a\r\nb"), Some(("a".to_string(), "b")));
    assert_eq!(first_line("a\rb"), Some(("a\rb".to_string(), "")));
    assert_eq!(first_line("\n"), Some(("".to_string(), "")));
    assert_eq!(first_line(""), None);
}
