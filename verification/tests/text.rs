use rmdev::text::{chars_of, file_name, same_text, string_of};

#[test]
fn file_name_is_the_final_segment() {
    assert_eq!(file_name("/r/proj"), "proj");
    assert_eq!(file_name("proj"), "proj");
    assert_eq!(file_name("/r/proj/"), "proj");
    assert_eq!(file_name("/r/proj///"), "proj");
    assert_eq!(file_name("a/b.c"), "b.c");
}

#[test]
fn file_name_works_on_characters_not_bytes() {
    assert_eq!(file_name("/日本/täräget"), "täräget");
    assert_eq!(file_name("/r/日本語/"), "日本語");
}

#[test]
fn file_name_of_nothing_is_empty() {
    assert_eq!(file_name(""), "");
    assert_eq!(file_name("/"), "");
    assert_eq!(file_name("///"), "");
}

#[test]
fn same_text_compares_characters() {
    assert!(same_text("abc", "abc"));
    assert!(same_text("", ""));
    assert!(!same_text("abc", "abd"));
    assert!(!same_text("abc", "ab"));
    assert!(!same_text(".git", ".github"));
}

#[test]
fn characters_and_back() {
    let chars = chars_of("añb");
    assert_eq!(chars, vec!['a', 'ñ', 'b']);
    assert_eq!(string_of(&chars, 1, 3), "ñb");
    assert_eq!(string_of(&chars, 2, 2), "");
}
