//! Address tokens, and how one run of characters is read as a token.

use crate::addressing::chars::{digit_value, is_digit, is_separator, is_symbol};
use crate::addressing::decimal::{all_digits, decimal_text, decimal_value, push_decimal};
use vstd::prelude::*;
use vstd::string::StringExecFns;

verus! {

/// One token of an address expression.
#[derive(Clone, Copy, Debug, PartialEq, Eq, Structural)]
pub enum Value {
    /// `,` or `;` between two addresses.
    Seperator(char),
    /// A line number written in decimal digits.
    NumericAddr(usize),
    /// `.` (the current line), `$` (the last line), `+` or `-` (one line
    /// further on or back).
    SymbolicAddr(char),
    /// An address that was left out.
    Empty,
}

/// Why an address expression was refused.
#[derive(Debug, PartialEq, Eq)]
pub enum AddressError {
    /// The line number is 0 or lies behind the last line.
    LinumError(usize),
    /// The range ends before it starts.
    MalformedError,
    /// The text is no token of the address syntax.
    WeirdInput(String),
}

/// An [`AddressError`] as contracts see it, with the text as a sequence of
/// characters.
pub ghost enum AddressErrorView {
    LinumError(usize),
    MalformedError,
    WeirdInput(Seq<char>),
}

impl View for AddressError {
    type V = AddressErrorView;

    open spec fn view(&self) -> AddressErrorView {
        match self {
            AddressError::LinumError(n) => AddressErrorView::LinumError(*n),
            AddressError::MalformedError => AddressErrorView::MalformedError,
            AddressError::WeirdInput(text) => AddressErrorView::WeirdInput(text@),
        }
    }
}

impl AddressErrorView {
    /// What the error says to the user.
    pub open spec fn message(self) -> Seq<char> {
        match self {
            AddressErrorView::LinumError(n) => decimal_text(n as nat) + ": Invalid Line number"@,
            AddressErrorView::MalformedError => "Address malformed"@,
            AddressErrorView::WeirdInput(text) => text + ": unsupported address num"@,
        }
    }
}

impl Clone for AddressError {
    fn clone(&self) -> (copy: Self)
        ensures
            copy@ == self@,
    {
        match self {
            AddressError::LinumError(n) => AddressError::LinumError(*n),
            AddressError::MalformedError => AddressError::MalformedError,
            AddressError::WeirdInput(text) => AddressError::WeirdInput(text.clone()),
        }
    }
}

impl AddressError {
    /// What the error says to the user.
    pub fn message(&self) -> (text: String)
        ensures
            text@ == self@.message(),
    {
        match self {
            AddressError::LinumError(n) => {
                let mut text = String::new();
                push_decimal(&mut text, *n);
                text.append(": Invalid Line number");
                text
            },
            AddressError::MalformedError => String::from_str("Address malformed"),
            AddressError::WeirdInput(input) => {
                let mut text = input.clone();
                text.append(": unsupported address num");
                text
            },
        }
    }
}

/// The token that the run of characters `run` stands for.
///
/// The empty run is a left-out address. A run of decimal digits is the line
/// number that it writes, as long as that number fits in a `usize`. A single
/// `,` or `;` is a separator, and a single `.`, `$`, `+` or `-` a symbolic
/// address. Every other run is refused with its own text.
pub open spec fn classify(run: Seq<char>) -> Result<Value, AddressErrorView> {
    if run.len() == 0 {
        Ok(Value::Empty)
    } else if all_digits(run) && decimal_value(run) <= usize::MAX {
        Ok(Value::NumericAddr(decimal_value(run) as usize))
    } else if run.len() == 1 && is_separator(run[0]) {
        Ok(Value::Seperator(run[0]))
    } else if run.len() == 1 && is_symbol(run[0]) {
        Ok(Value::SymbolicAddr(run[0]))
    } else {
        Err(AddressErrorView::WeirdInput(run))
    }
}

/// What a token or an error is in contracts.
pub open spec fn token_view(outcome: Result<Value, AddressError>) -> Result<
    Value,
    AddressErrorView,
> {
    match outcome {
        Ok(token) => Ok(token),
        Err(error) => Err(error@),
    }
}

impl Value {
    /// Reads `text` as one token.
    pub fn parse(text: &str) -> (outcome: Result<Value, AddressError>)
        ensures
            token_view(outcome) == classify(text@),
    {
        // The length, counted up to two: all that the token shapes tell apart.
        let mut seen: u8 = 0;
        let mut first: char = '0';
        let mut digits = true;
        // The number written so far, or `None` once it has left `usize`.
        let mut number: Option<usize> = Some(0);
        for c in it: text.chars()
            invariant
                it.seq() == text@,
                seen == if it.index() < 2 {
                    it.index()
                } else {
                    2
                },
                seen >= 1 ==> first == text@[0],
                digits == all_digits(text@.take(it.index() as int)),
                digits ==> match number {
                    Some(n) => n == decimal_value(text@.take(it.index() as int)),
                    None => decimal_value(text@.take(it.index() as int)) > usize::MAX,
                },
        {
            let ghost before = text@.take(it.index() as int);
            let ghost after = text@.take(it.index() + 1);
            assert(after.drop_last() == before);
            assert(after.last() == c);
            if seen == 0 {
                first = c;
            }
            if seen < 2 {
                seen += 1;
            }
            if digits && is_digit(c) {
                assert(all_digits(after)) by {
                    assert forall|i: int| 0 <= i < after.len() implies is_digit(
                        #[trigger] after[i],
                    ) by {
                        if i < before.len() {
                            assert(after[i] == before[i]);
                        }
                    }
                }
                number =
                match number {
                    Some(n) => match n.checked_mul(10) {
                        Some(tens) => tens.checked_add(digit_value(c)),
                        None => None,
                    },
                    None => None,
                };
            } else {
                assert(!all_digits(after)) by {
                    if all_digits(after) {
                        assert(is_digit(after[after.len() - 1]));
                        assert forall|i: int| 0 <= i < before.len() implies is_digit(
                            #[trigger] before[i],
                        ) by {
                            assert(before[i] == after[i]);
                        }
                    }
                }
                digits = false;
            }
        }
        assert(text@.take(text@.len() as int) == text@);
        if seen == 0 {
            Ok(Value::Empty)
        } else if digits && number.is_some() {
            Ok(Value::NumericAddr(number.unwrap()))
        } else if seen == 1 && is_separator(first) {
            Ok(Value::Seperator(first))
        } else if seen == 1 && is_symbol(first) {
            Ok(Value::SymbolicAddr(first))
        } else {
            Err(AddressError::WeirdInput(String::from_str(text)))
        }
    }
}

impl core::str::FromStr for Value {
    type Err = AddressError;

    /// Reads `string` as one token, as [`Value::parse`] does.
    fn from_str(string: &str) -> (outcome: Result<Self, AddressError>)
        ensures
            token_view(outcome) == classify(string@),
    {
        Value::parse(string)
    }
}

} // verus!
