use line_editor::addressing::{extract_addresses, set_addresses, EditorInput};
use line_editor::{execute_commands, Action, EditorConfig, EditorState};

fn run(line: &str, state: &mut EditorState) -> Action {
    let mut input = EditorInput::new(line);
    let tokens = extract_addresses(&mut input).unwrap();
    let count = set_addresses(tokens, state).unwrap();
    execute_commands(&mut input, state, count)
}

fn five_lines() -> EditorState {
    let lines = vec!["a", "b", "c", "d", "e"].into_iter().map(String::from).collect();
    EditorState::new(EditorConfig::new(String::new(), lines))
}

#[test]
fn range_and_command_on_one_line() {
    let mut state = five_lines();
    assert_eq!(run("1,3p", &mut state), Action::Print { first: 1, last: 3 });
    assert_eq!(run("p", &mut state), Action::Print { first: 3, last: 3 });
    assert_eq!(run(",p", &mut state), Action::Print { first: 1, last: 5 });
    assert_eq!(run("2", &mut state), Action::Print { first: 2, last: 2 });
    assert_eq!(run("", &mut state), Action::Print { first: 2, last: 2 });
    assert_eq!(run("+", &mut state), Action::Print { first: 3, last: 3 });
    assert_eq!(run(" 4 Q", &mut state), Action::Quit);
}

#[test]
fn refused_address_leaves_the_session_as_it_was() {
    let mut state = five_lines();
    assert_eq!(run("2,4p", &mut state), Action::Print { first: 2, last: 4 });
    let mut input = EditorInput::new("7p");
    let tokens = extract_addresses(&mut input).unwrap();
    assert!(set_addresses(tokens, &mut state).is_err());
    assert_eq!(run("p", &mut state), Action::Print { first: 4, last: 4 });
}
