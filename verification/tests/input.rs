use line_editor::addressing::EditorInput;

#[test]
fn new_cursor_stands_at_the_first_character() {
    let input = EditorInput::new("1p");
    assert_eq!(input.peek(), Some(&'1'));
    assert!(!input.end_of_line());
}

#[test]
fn peek_does_not_consume() {
    let input = EditorInput::new("ab");
    assert_eq!(input.peek(), Some(&'a'));
    assert_eq!(input.peek(), Some(&'a'));
}

#[test]
fn pop_consumes_one_character_at_a_time() {
    let mut input = EditorInput::new("ab");
    assert_eq!(input.pop(), Some(&'a'));
    assert_eq!(input.peek(), Some(&'b'));
    assert_eq!(input.pop(), Some(&'b'));
    assert!(input.end_of_line());
}

#[test]
fn pop_at_the_end_returns_none_and_stays() {
    let mut input = EditorInput::new("a");
    assert_eq!(input.pop(), Some(&'a'));
    assert_eq!(input.pop(), None);
    assert_eq!(input.pop(), None);
    assert_eq!(input.peek(), None);
    assert!(input.end_of_line());
}

#[test]
fn empty_line_is_at_its_end() {
    let mut input = EditorInput::new("");
    assert!(input.end_of_line());
    assert_eq!(input.peek(), None);
    assert_eq!(input.pop(), None);
}

#[test]
fn characters_are_counted_not_bytes() {
    let mut input = EditorInput::new("é$");
    assert_eq!(input.pop(), Some(&'é'));
    assert_eq!(input.pop(), Some(&'$'));
    assert!(input.end_of_line());
}
