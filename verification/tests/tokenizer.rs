use line_editor::addressing::{extract_addresses, AddressError, EditorInput, Value};

fn tokens(line: &str) -> Vec<Value> {
    let mut input = EditorInput::new(line);
    extract_addresses(&mut input).unwrap()
}

fn rest(line: &str) -> String {
    let mut input = EditorInput::new(line);
    let _ = extract_addresses(&mut input);
    let mut left = String::new();
    while let Some(c) = input.pop() {
        left.push(*c);
    }
    left
}

#[test]
fn absent_expression_is_one_left_out_address() {
    assert_eq!(tokens(""), vec![Value::Empty]);
    assert_eq!(tokens("p"), vec![Value::Empty]);
    assert_eq!(tokens("   "), vec![Value::Empty]);
}

#[test]
fn single_number() {
    assert_eq!(tokens("3"), vec![Value::NumericAddr(3)]);
    assert_eq!(tokens("999"), vec![Value::NumericAddr(999)]);
}

#[test]
fn full_range() {
    assert_eq!(
        tokens("1,$"),
        vec![Value::NumericAddr(1), Value::Seperator(','), Value::SymbolicAddr('$')]
    );
}

#[test]
fn two_numbers() {
    assert_eq!(
        tokens("5,2"),
        vec![Value::NumericAddr(5), Value::Seperator(','), Value::NumericAddr(2)]
    );
    assert_eq!(
        tokens("12;34"),
        vec![Value::NumericAddr(12), Value::Seperator(';'), Value::NumericAddr(34)]
    );
}

#[test]
fn leading_separator_has_a_left_out_address_before_it() {
    assert_eq!(tokens(","), vec![Value::Empty, Value::Seperator(',')]);
    assert_eq!(tokens(";"), vec![Value::Empty, Value::Seperator(';')]);
    assert_eq!(
        tokens(",5"),
        vec![Value::Empty, Value::Seperator(','), Value::NumericAddr(5)]
    );
}

#[test]
fn adjacent_separators_have_a_left_out_address_between_them() {
    assert_eq!(
        tokens(",,"),
        vec![Value::Empty, Value::Seperator(','), Value::Empty, Value::Seperator(',')]
    );
    assert_eq!(
        tokens(",;"),
        vec![Value::Empty, Value::Seperator(','), Value::Empty, Value::Seperator(';')]
    );
    assert_eq!(
        tokens("1,,2"),
        vec![
            Value::NumericAddr(1),
            Value::Seperator(','),
            Value::Empty,
            Value::Seperator(','),
            Value::NumericAddr(2)
        ]
    );
}

#[test]
fn trailing_separator_has_nothing_behind_it() {
    assert_eq!(tokens("1,"), vec![Value::NumericAddr(1), Value::Seperator(',')]);
}

#[test]
fn symbol_before_a_separator_is_an_address() {
    assert_eq!(
        tokens("$,$"),
        vec![Value::SymbolicAddr('$'), Value::Seperator(','), Value::SymbolicAddr('$')]
    );
    assert_eq!(
        tokens(".,+"),
        vec![Value::SymbolicAddr('.'), Value::Seperator(','), Value::SymbolicAddr('+')]
    );
}

#[test]
fn symbols_cut_numbers() {
    assert_eq!(tokens("5+"), vec![Value::NumericAddr(5), Value::SymbolicAddr('+')]);
    assert_eq!(
        tokens("$--"),
        vec![Value::SymbolicAddr('$'), Value::SymbolicAddr('-'), Value::SymbolicAddr('-')]
    );
    assert_eq!(tokens("-3"), vec![Value::SymbolicAddr('-'), Value::NumericAddr(3)]);
    assert_eq!(
        tokens("1.2"),
        vec![Value::NumericAddr(1), Value::SymbolicAddr('.'), Value::NumericAddr(2)]
    );
}

#[test]
fn white_space_is_passed_over() {
    assert_eq!(
        tokens(" 1 , 3 "),
        vec![Value::NumericAddr(1), Value::Seperator(','), Value::NumericAddr(3)]
    );
    assert_eq!(tokens("\t7"), vec![Value::NumericAddr(7)]);
    assert_eq!(tokens("\u{3000}7\u{a0}"), vec![Value::NumericAddr(7)]);
    assert_eq!(tokens(", ,"), tokens(",,"));
}

#[test]
fn white_space_does_not_end_a_number() {
    assert_eq!(tokens("1 2"), vec![Value::NumericAddr(12)]);
    assert_eq!(tokens("1 2 , 3"), tokens("12,3"));
}

#[test]
fn command_letter_ends_the_expression_and_stays() {
    assert_eq!(tokens("1p"), vec![Value::NumericAddr(1)]);
    assert_eq!(rest("1p"), "p");
    assert_eq!(
        tokens("1,3p"),
        vec![Value::NumericAddr(1), Value::Seperator(','), Value::NumericAddr(3)]
    );
    assert_eq!(rest("1,3p"), "p");
    assert_eq!(rest("p1"), "p1");
    assert_eq!(rest("1,2 Q rest"), "Q rest");
    assert_eq!(tokens("7é"), vec![Value::NumericAddr(7)]);
    assert_eq!(rest("7é"), "é");
}

#[test]
fn other_character_ends_the_expression_and_drops_the_number_before_it() {
    assert_eq!(tokens("12!"), vec![Value::Empty]);
    assert_eq!(rest("12!"), "!");
    assert_eq!(tokens("1,2!"), vec![Value::NumericAddr(1), Value::Seperator(',')]);
    assert_eq!(rest("1,2!"), "!");
    assert_eq!(tokens("$!"), vec![Value::SymbolicAddr('$')]);
    assert_eq!(tokens("3²"), vec![Value::Empty]);
    assert_eq!(rest("3²"), "²");
}

#[test]
fn whole_line_is_read_without_a_command() {
    assert_eq!(rest("1,$"), "");
    assert_eq!(rest(""), "");
    assert_eq!(rest(" 4 "), "");
}

#[test]
fn number_too_large_is_refused() {
    let text = format!("{}0", usize::MAX);
    let line = format!("1,{}p", text);
    let mut input = EditorInput::new(&line);
    assert_eq!(extract_addresses(&mut input), Err(AddressError::WeirdInput(text)));
    assert_eq!(input.peek(), Some(&'p'));
}

#[test]
fn first_refused_run_is_reported() {
    let first = format!("{}1", usize::MAX);
    let second = format!("{}2", usize::MAX);
    let line = format!("{},{}", first, second);
    let mut input = EditorInput::new(&line);
    assert_eq!(extract_addresses(&mut input), Err(AddressError::WeirdInput(first)));
}

#[test]
fn scanning_starts_at_the_cursor() {
    let mut input = EditorInput::new("9,3p");
    assert_eq!(input.pop(), Some(&'9'));
    assert_eq!(
        extract_addresses(&mut input),
        Ok(vec![Value::Empty, Value::Seperator(','), Value::NumericAddr(3)])
    );
    assert_eq!(input.peek(), Some(&'p'));
}
