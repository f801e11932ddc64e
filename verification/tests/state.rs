use line_editor::addressing::EditorInput;
use line_editor::{execute_commands, Action, EditorConfig, EditorState, Mode};

fn state_with(lines: &[&str]) -> EditorState {
    let text = lines.iter().map(|line| line.to_string()).collect();
    EditorState::new(EditorConfig::new("> ".to_string(), text))
}

#[test]
fn session_starts_at_the_last_line_in_command_mode() {
    let state = state_with(&["one", "two", "three"]);
    assert_eq!(state.dollar(), 3);
    assert_eq!(state.dot(), 3);
    assert_eq!(state.address1(), 3);
    assert_eq!(state.address2(), 3);
    assert_eq!(state.current_mode(), Mode::Command);
    assert_eq!(state.prompt(), "> ");
}

#[test]
fn lines_are_numbered_from_one_behind_an_empty_line() {
    let state = state_with(&["one", "two"]);
    assert_eq!(state.line(0).map(|line| line.as_str()), Some(""));
    assert_eq!(state.line(1).map(|line| line.as_str()), Some("one"));
    assert_eq!(state.line(2).map(|line| line.as_str()), Some("two"));
    assert_eq!(state.line(3), None);
}

#[test]
fn empty_file_has_only_line_zero() {
    let state = state_with(&[]);
    assert_eq!(state.dollar(), 0);
    assert_eq!(state.dot(), 0);
    assert_eq!(state.line(0).map(|line| line.as_str()), Some(""));
    assert_eq!(state.line(1), None);
}

#[test]
fn flip_mode_goes_back_and_forth() {
    let mut state = state_with(&["one"]);
    state.flip_mode();
    assert_eq!(state.current_mode(), Mode::Insert);
    state.flip_mode();
    assert_eq!(state.current_mode(), Mode::Command);
    assert_eq!(state.dollar(), 1);
}

#[test]
fn p_prints_the_range() {
    let mut state = state_with(&["one", "two", "three"]);
    let mut input = EditorInput::new("p");
    assert_eq!(execute_commands(&mut input, &mut state, 0), Action::Print { first: 3, last: 3 });
    assert!(input.end_of_line());
}

#[test]
fn a_switches_to_insert_mode() {
    let mut state = state_with(&["one"]);
    let mut input = EditorInput::new("a");
    assert_eq!(execute_commands(&mut input, &mut state, 0), Action::Done);
    assert_eq!(state.current_mode(), Mode::Insert);
}

#[test]
fn capital_q_quits() {
    let mut state = state_with(&["one"]);
    let mut input = EditorInput::new("Q");
    assert_eq!(execute_commands(&mut input, &mut state, 1), Action::Quit);
    assert_eq!(state.current_mode(), Mode::Command);
}

#[test]
fn other_letters_are_unknown() {
    let mut state = state_with(&["one"]);
    let mut input = EditorInput::new("zp");
    assert_eq!(execute_commands(&mut input, &mut state, 1), Action::Unknown);
    assert_eq!(input.peek(), Some(&'p'));
    let mut input = EditorInput::new("q");
    assert_eq!(execute_commands(&mut input, &mut state, 1), Action::Unknown);
}

#[test]
fn no_letter_prints_the_current_line() {
    let mut state = state_with(&["one", "two"]);
    let mut input = EditorInput::new("");
    assert_eq!(execute_commands(&mut input, &mut state, 0), Action::Print { first: 2, last: 2 });
    assert_eq!(execute_commands(&mut input, &mut state, 2), Action::Print { first: 2, last: 2 });
}

#[test]
fn no_letter_and_no_token_is_unknown() {
    let mut state = state_with(&["one", "two"]);
    let mut input = EditorInput::new("");
    assert_eq!(execute_commands(&mut input, &mut state, -1), Action::Unknown);
}
