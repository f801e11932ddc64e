use line_editor::addressing::{AddressError, Value};

#[test]
fn empty_text_is_a_left_out_address() {
    assert_eq!(Value::parse(""), Ok(Value::Empty));
}

#[test]
fn digits_are_a_number() {
    assert_eq!(Value::parse("0"), Ok(Value::NumericAddr(0)));
    assert_eq!(Value::parse("7"), Ok(Value::NumericAddr(7)));
    assert_eq!(Value::parse("999"), Ok(Value::NumericAddr(999)));
    assert_eq!(Value::parse("0012"), Ok(Value::NumericAddr(12)));
}

#[test]
fn largest_number_is_read() {
    let text = format!("{}", usize::MAX);
    assert_eq!(Value::parse(&text), Ok(Value::NumericAddr(usize::MAX)));
}

#[test]
fn number_too_large_is_refused_with_its_text() {
    let text = format!("{}0", usize::MAX);
    assert_eq!(Value::parse(&text), Err(AddressError::WeirdInput(text.clone())));
    let next = "18446744073709551616";
    if usize::MAX as u128 == u64::MAX as u128 {
        assert_eq!(Value::parse(next), Err(AddressError::WeirdInput(next.to_string())));
    }
}

#[test]
fn separators_are_read() {
    assert_eq!(Value::parse(","), Ok(Value::Seperator(',')));
    assert_eq!(Value::parse(";"), Ok(Value::Seperator(';')));
}

#[test]
fn symbols_are_read() {
    assert_eq!(Value::parse("."), Ok(Value::SymbolicAddr('.')));
    assert_eq!(Value::parse("$"), Ok(Value::SymbolicAddr('$')));
    assert_eq!(Value::parse("+"), Ok(Value::SymbolicAddr('+')));
    assert_eq!(Value::parse("-"), Ok(Value::SymbolicAddr('-')));
}

#[test]
fn letters_among_digits_are_refused() {
    assert_eq!(Value::parse("12a"), Err(AddressError::WeirdInput("12a".to_string())));
    assert_eq!(Value::parse("a12"), Err(AddressError::WeirdInput("a12".to_string())));
    assert_eq!(Value::parse("p"), Err(AddressError::WeirdInput("p".to_string())));
}

#[test]
fn runs_of_marks_are_refused() {
    assert_eq!(Value::parse(",,"), Err(AddressError::WeirdInput(",,".to_string())));
    assert_eq!(Value::parse("+-"), Err(AddressError::WeirdInput("+-".to_string())));
    assert_eq!(Value::parse("1,"), Err(AddressError::WeirdInput("1,".to_string())));
    assert_eq!(Value::parse(" "), Err(AddressError::WeirdInput(" ".to_string())));
}

#[test]
fn digits_of_other_scripts_are_refused() {
    assert_eq!(Value::parse("٣"), Err(AddressError::WeirdInput("٣".to_string())));
    assert_eq!(Value::parse("²"), Err(AddressError::WeirdInput("²".to_string())));
}

#[test]
fn from_str_reads_a_token() {
    assert_eq!("12".parse::<Value>(), Ok(Value::NumericAddr(12)));
    assert_eq!("".parse::<Value>(), Ok(Value::Empty));
    assert_eq!(";".parse::<Value>(), Ok(Value::Seperator(';')));
    assert_eq!("$".parse::<Value>(), Ok(Value::SymbolicAddr('$')));
    assert_eq!("x1".parse::<Value>(), Err(AddressError::WeirdInput("x1".to_string())));
}

#[test]
fn messages_are_worded_for_the_user() {
    assert_eq!(AddressError::LinumError(999).message(), "999: Invalid Line number");
    assert_eq!(AddressError::LinumError(0).message(), "0: Invalid Line number");
    assert_eq!(AddressError::LinumError(10).message(), "10: Invalid Line number");
    assert_eq!(AddressError::MalformedError.message(), "Address malformed");
    assert_eq!(
        AddressError::WeirdInput("12a".to_string()).message(),
        "12a: unsupported address num"
    );
}

#[test]
fn message_writes_the_largest_number() {
    assert_eq!(
        AddressError::LinumError(usize::MAX).message(),
        format!("{}: Invalid Line number", usize::MAX)
    );
}

#[test]
fn clone_keeps_the_error() {
    let error = AddressError::WeirdInput("1x".to_string());
    assert_eq!(error.clone(), error);
    assert_eq!(AddressError::LinumError(3).clone(), AddressError::LinumError(3));
    assert_eq!(AddressError::MalformedError.clone(), AddressError::MalformedError);
}
