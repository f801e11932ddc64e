//! What holds of address expressions as they are typed.

use crate::addressing::chars::{is_digit, is_separator};
use crate::addressing::decimal::{
    all_digits, decimal_text, decimal_value, lemma_decimal_round_trip, lemma_decimal_text_digits,
};
use crate::addressing::laws::{
    lemma_bare_comma, lemma_bare_semicolon, lemma_descending_range, lemma_dot_follows_range,
    lemma_first_to_last, lemma_left_out_address, lemma_number_out_of_range, lemma_single_number,
};
use crate::addressing::resolve::{resolve, Resolved};
use crate::addressing::scan::{
    address_end, address_runs, lemma_classify_push, lemma_scan_digits, scan, tokenize,
};
use crate::addressing::token::{classify, AddressErrorView, Value};
use crate::state::StateView;
use vstd::prelude::*;

verus! {

/// The range that the address expression `text` stands for in the state `s`,
/// or why it stands for none.
pub open spec fn denote(text: Seq<char>, s: StateView) -> Result<Resolved, AddressErrorView> {
    match tokenize(text, 0) {
        Ok(tokens) => resolve(tokens, s),
        Err(error) => Err(error),
    }
}

/// An expression that is absent stands for the last line of the range that
/// was resolved before and counts as no address: where that range was a
/// single line of the buffer, the range stays as it was.
pub proof fn lemma_typed_nothing(s: StateView)
    requires
        s.address1 == s.address2,
        1 <= s.address2 <= s.dollar,
    ensures
        denote(Seq::empty(), s) == Ok::<Resolved, AddressErrorView>(
            Resolved { count: 0, state: StateView { dot: s.address2, ..s } },
        ),
{
    let runs = seq![Seq::<char>::empty()];
    assert(address_runs(Seq::empty(), 0) == runs);
    lemma_classify_push(Seq::empty(), Seq::<char>::empty());
    assert(Seq::<Seq<char>>::empty().push(Seq::<char>::empty()) == runs);
    assert(Seq::<Value>::empty().push(Value::Empty) == seq![Value::Empty]);
    lemma_left_out_address(s);
}

/// The token that a number in digits is read as.
pub open spec fn number_token(digits: Seq<char>) -> Value {
    Value::NumericAddr(decimal_value(digits) as usize)
}

/// A number in digits, alone on the line, is one numeric token, and the
/// whole line is read.
pub proof fn lemma_number_tokens(digits: Seq<char>)
    requires
        digits.len() > 0,
        all_digits(digits),
        decimal_value(digits) <= usize::MAX,
    ensures
        tokenize(digits, 0) == Ok::<Seq<Value>, AddressErrorView>(seq![number_token(digits)]),
        address_end(digits, 0) == digits.len(),
{
    lemma_scan_digits(digits, 0, digits.len() as int, Seq::empty(), false);
    assert(Seq::<char>::empty() + digits.subrange(0, digits.len() as int) == digits);
    assert(address_runs(digits, 0) == seq![digits]);
    lemma_classify_push(Seq::empty(), digits);
    assert(Seq::<Seq<char>>::empty().push(digits) == seq![digits]);
    assert(Seq::<Value>::empty().push(number_token(digits)) == seq![number_token(digits)]);
}

/// Two numbers in digits with a separator between them are three tokens.
pub proof fn lemma_pair_tokens(from: Seq<char>, separator: char, to: Seq<char>)
    requires
        from.len() > 0,
        all_digits(from),
        decimal_value(from) <= usize::MAX,
        is_separator(separator),
        to.len() > 0,
        all_digits(to),
        decimal_value(to) <= usize::MAX,
    ensures
        tokenize(from + seq![separator] + to, 0) == Ok::<Seq<Value>, AddressErrorView>(
            seq![number_token(from), Value::Seperator(separator), number_token(to)],
        ),
        address_end(from + seq![separator] + to, 0) == from.len() + 1 + to.len(),
{
    let text = from + seq![separator] + to;
    let mid = from.len() as int;
    let end = text.len() as int;
    assert forall|i: int| 0 <= i < mid implies is_digit(#[trigger] text[i]) by {
        assert(text[i] == from[i]);
    }
    assert forall|i: int| mid + 1 <= i < end implies is_digit(#[trigger] text[i]) by {
        assert(text[i] == to[i - mid - 1]);
    }
    assert(text[mid] == separator);
    lemma_scan_digits(text, 0, mid, Seq::empty(), false);
    assert(Seq::<char>::empty() + text.subrange(0, mid) == from);
    lemma_scan_digits(text, mid + 1, to.len() as int, Seq::empty(), false);
    assert(Seq::<char>::empty() + text.subrange(mid + 1, end) == to);
    let runs = seq![from, seq![separator], to];
    assert(scan(text, end, to, false).runs == seq![to]);
    assert(scan(text, mid, from, false).runs == seq![from].push(seq![separator]) + seq![to]);
    assert(seq![from].push(seq![separator]) + seq![to] == runs);
    assert(address_runs(text, 0) == runs);

    let first = Seq::<Seq<char>>::empty().push(from);
    let second = first.push(seq![separator]);
    lemma_classify_push(Seq::empty(), from);
    lemma_classify_push(first, seq![separator]);
    lemma_classify_push(second, to);
    assert(second.push(to) == runs);
    assert(!is_digit(separator));
    assert(!all_digits(seq![separator])) by {
        assert(seq![separator][0] == separator);
    }
    assert(classify(seq![separator]) == Ok::<Value, AddressErrorView>(
        Value::Seperator(separator),
    ));
    assert(Seq::<Value>::empty().push(number_token(from)).push(
        Value::Seperator(separator),
    ).push(number_token(to)) == seq![
        number_token(from),
        Value::Seperator(separator),
        number_token(to),
    ]);
}

/// The number of a line of the buffer, typed alone, stands for that line: it
/// is both ends of the range and the current line, and counts as one
/// address.
pub proof fn lemma_typed_number(n: usize, s: StateView)
    requires
        1 <= n <= s.dollar,
    ensures
        denote(decimal_text(n as nat), s) == Ok::<Resolved, AddressErrorView>(
            Resolved { count: 1, state: StateView { address1: n, address2: n, dot: n, ..s } },
        ),
{
    lemma_decimal_text_digits(n as nat);
    lemma_decimal_round_trip(n as nat);
    lemma_number_tokens(decimal_text(n as nat));
    lemma_single_number(n, s);
}

/// A typed number that is 0 or lies behind the last line is refused with
/// that number.
pub proof fn lemma_typed_number_out_of_range(n: usize, s: StateView)
    requires
        n == 0 || n > s.dollar,
    ensures
        denote(decimal_text(n as nat), s) == Err::<Resolved, AddressErrorView>(
            AddressErrorView::LinumError(n),
        ),
{
    lemma_decimal_text_digits(n as nat);
    lemma_decimal_round_trip(n as nat);
    lemma_number_tokens(decimal_text(n as nat));
    lemma_number_out_of_range(n, s);
}

/// Two typed lines of the buffer, the later one first, are no range.
pub proof fn lemma_typed_descending_range(from: usize, to: usize, s: StateView)
    requires
        1 <= to < from <= s.dollar,
    ensures
        denote(decimal_text(from as nat) + seq![','] + decimal_text(to as nat), s) == Err::<
            Resolved,
            AddressErrorView,
        >(AddressErrorView::MalformedError),
{
    lemma_decimal_text_digits(from as nat);
    lemma_decimal_round_trip(from as nat);
    lemma_decimal_text_digits(to as nat);
    lemma_decimal_round_trip(to as nat);
    lemma_pair_tokens(decimal_text(from as nat), ',', decimal_text(to as nat));
    lemma_descending_range(from, to, false, s);
}

/// `1,$` stands for the whole buffer, and counts as two addresses.
pub proof fn lemma_typed_first_to_last(s: StateView)
    requires
        1 <= s.dollar,
    ensures
        denote("1,$"@, s) == Ok::<Resolved, AddressErrorView>(
            Resolved {
                count: 2,
                state: StateView { address1: 1, address2: s.dollar, dot: s.dollar, ..s },
            },
        ),
{
    let text = "1,$"@;
    reveal_strlit("1,$");
    assert(text == seq!['1', ',', '$']);
    reveal_with_fuel(scan, 4);
    let runs = seq![seq!['1'], seq![','], seq!['$']];
    assert(scan(text, 0, Seq::empty(), false).runs == runs);
    assert(address_runs(text, 0) == runs);
    let first = Seq::<Seq<char>>::empty().push(seq!['1']);
    let second = first.push(seq![',']);
    lemma_classify_push(Seq::empty(), seq!['1']);
    lemma_classify_push(first, seq![',']);
    lemma_classify_push(second, seq!['$']);
    assert(second.push(seq!['$']) == runs);
    assert(seq!['1'].drop_last() == Seq::<char>::empty());
    assert(decimal_value(seq!['1']) == 1) by {
        reveal_with_fuel(decimal_value, 2);
    }
    assert(seq!['1'][0] == '1');
    assert(seq![','][0] == ',');
    assert(seq!['$'][0] == '$');
    assert(all_digits(seq!['1']));
    assert(!all_digits(seq![',']));
    assert(!all_digits(seq!['$']));
    assert(Seq::<Value>::empty().push(Value::NumericAddr(1)).push(Value::Seperator(',')).push(
        Value::SymbolicAddr('$'),
    ) == seq![Value::NumericAddr(1), Value::Seperator(','), Value::SymbolicAddr('$')]);
    lemma_first_to_last(s);
}

/// A separator typed alone is read as a left-out address and the separator.
pub proof fn lemma_bare_separator_tokens(separator: char)
    requires
        is_separator(separator),
    ensures
        tokenize(seq![separator], 0) == Ok::<Seq<Value>, AddressErrorView>(
            seq![Value::Empty, Value::Seperator(separator)],
        ),
{
    let text = seq![separator];
    assert(text[0] == separator);
    reveal_with_fuel(scan, 2);
    let runs = seq![Seq::<char>::empty(), seq![separator]];
    assert(scan(text, 0, Seq::empty(), false).runs == runs);
    assert(address_runs(text, 0) == runs);
    let first = Seq::<Seq<char>>::empty().push(Seq::<char>::empty());
    lemma_classify_push(Seq::empty(), Seq::<char>::empty());
    lemma_classify_push(first, seq![separator]);
    assert(first.push(seq![separator]) == runs);
    assert(!all_digits(seq![separator]));
    assert(Seq::<Value>::empty().push(Value::Empty).push(Value::Seperator(separator)) == seq![
        Value::Empty,
        Value::Seperator(separator),
    ]);
}

/// `,` typed alone stands for the whole buffer, from line 1 to the last
/// line, and counts as no address. The range is not narrowed to its last
/// line.
pub proof fn lemma_typed_bare_comma(s: StateView)
    requires
        1 <= s.dollar,
    ensures
        denote(","@, s) == Ok::<Resolved, AddressErrorView>(
            Resolved {
                count: 0,
                state: StateView { address1: 1, address2: s.dollar, dot: s.dollar, ..s },
            },
        ),
{
    reveal_strlit(",");
    assert(","@ == seq![',']);
    lemma_bare_separator_tokens(',');
    lemma_bare_comma(s);
}

/// `;` typed alone stands for the lines from the end of the range that was
/// resolved before to the last line: the range starts where `.` was moved
/// to, not at line 1. The current line afterwards is the last line.
pub proof fn lemma_typed_bare_semicolon(s: StateView)
    requires
        1 <= s.address2 <= s.dollar,
    ensures
        denote(";"@, s) == Ok::<Resolved, AddressErrorView>(
            Resolved {
                count: 0,
                state: StateView { address1: s.address2, address2: s.dollar, dot: s.dollar, ..s },
            },
        ),
{
    reveal_strlit(";");
    assert(";"@ == seq![';']);
    lemma_bare_separator_tokens(';');
    lemma_bare_semicolon(s);
}

/// After any expression was resolved, `.` typed alone stands for the last
/// line of its range.
pub proof fn lemma_typed_dot_follows_range(text: Seq<char>, s: StateView)
    requires
        denote(text, s) is Ok,
    ensures
        ({
            let after = denote(text, s)->Ok_0.state;
            denote("."@, after) == Ok::<Resolved, AddressErrorView>(
                Resolved { count: 1, state: StateView { address1: after.address2, ..after } },
            )
        }),
{
    reveal_strlit(".");
    let dot = "."@;
    assert(dot == seq!['.']);
    assert(dot[0] == '.');
    reveal_with_fuel(scan, 2);
    let runs = seq![seq!['.']];
    assert(scan(dot, 0, Seq::empty(), false).runs == runs);
    assert(address_runs(dot, 0) == runs);
    lemma_classify_push(Seq::empty(), seq!['.']);
    assert(Seq::<Seq<char>>::empty().push(seq!['.']) == runs);
    assert(!all_digits(seq!['.']));
    assert(Seq::<Value>::empty().push(Value::SymbolicAddr('.')) == seq![
        Value::SymbolicAddr('.'),
    ]);
    lemma_dot_follows_range(tokenize(text, 0)->Ok_0, s);
}

} // verus!
