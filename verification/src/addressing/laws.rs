//! What holds of address resolution whatever the state.

use crate::addressing::resolve::{resolve, run, start, step, Resolved, Working};
use crate::addressing::token::{AddressErrorView, Value};
use crate::state::StateView;
use vstd::prelude::*;

verus! {

/// The effect of a single token is one step from the start.
pub proof fn lemma_run_one(a: Value, s: StateView)
    ensures
        run(seq![a], s) == step(start(s), a, s),
{
    assert(seq![a].drop_last() == Seq::<Value>::empty());
    reveal_with_fuel(run, 2);
}

/// The effect of two tokens is two steps from the start.
pub proof fn lemma_run_two(a: Value, b: Value, s: StateView)
    ensures
        run(seq![a, b], s) == step(step(start(s), a, s), b, s),
{
    assert(seq![a, b].drop_last() == seq![a]);
    lemma_run_one(a, s);
}

/// The effect of three tokens is three steps from the start.
pub proof fn lemma_run_three(a: Value, b: Value, c: Value, s: StateView)
    ensures
        run(seq![a, b, c], s) == step(step(step(start(s), a, s), b, s), c, s),
{
    assert(seq![a, b, c].drop_last() == seq![a, b]);
    lemma_run_two(a, b, s);
}

/// A range that was resolved lies in the buffer, starts at line 1 or later
/// and does not end before it starts. Its last line is the current line.
/// Nothing else of the state has changed.
pub proof fn lemma_resolved_range(tokens: Seq<Value>, s: StateView)
    requires
        resolve(tokens, s) is Ok,
    ensures
        ({
            let after = resolve(tokens, s)->Ok_0.state;
            &&& 1 <= after.address1 <= after.address2 <= after.dollar
            &&& after.dot == after.address2
            &&& after == (StateView {
                address1: after.address1,
                address2: after.address2,
                dot: after.dot,
                ..s
            })
            &&& s.wf() ==> after.wf()
        }),
{
}

/// A left-out address alone counts as no address and stands for the last
/// line of the range that was resolved before, where that is a line of the
/// buffer.
pub proof fn lemma_left_out_address_line(s: StateView)
    ensures
        1 <= s.address2 <= s.dollar ==> resolve(seq![Value::Empty], s) == Ok::<
            Resolved,
            AddressErrorView,
        >(
            Resolved {
                count: 0,
                state: StateView { address1: s.address2, dot: s.address2, ..s },
            },
        ),
        !(1 <= s.address2 <= s.dollar) ==> resolve(seq![Value::Empty], s) == Err::<
            Resolved,
            AddressErrorView,
        >(AddressErrorView::LinumError(s.address2)),
{
    lemma_run_one(Value::Empty, s);
}

/// Where the range that was resolved before is a single line of the buffer,
/// a left-out address alone leaves the range as it was, and counts as no
/// address.
pub proof fn lemma_left_out_address(s: StateView)
    requires
        s.address1 == s.address2,
        1 <= s.address2 <= s.dollar,
    ensures
        resolve(seq![Value::Empty], s) == Ok::<Resolved, AddressErrorView>(
            Resolved { count: 0, state: StateView { dot: s.address2, ..s } },
        ),
{
    lemma_left_out_address_line(s);
}

/// To resolve a left-out address a second time changes nothing.
pub proof fn lemma_left_out_address_twice(s: StateView)
    requires
        resolve(seq![Value::Empty], s) is Ok,
    ensures
        resolve(seq![Value::Empty], resolve(seq![Value::Empty], s)->Ok_0.state) == resolve(
            seq![Value::Empty],
            s,
        ),
{
    lemma_run_one(Value::Empty, s);
    lemma_run_one(Value::Empty, resolve(seq![Value::Empty], s)->Ok_0.state);
}

/// The number of a line of the buffer, alone, stands for that line: it is
/// both ends of the range and the current line, and counts as one address.
pub proof fn lemma_single_number(n: usize, s: StateView)
    requires
        1 <= n <= s.dollar,
    ensures
        resolve(seq![Value::NumericAddr(n)], s) == Ok::<Resolved, AddressErrorView>(
            Resolved { count: 1, state: StateView { address1: n, address2: n, dot: n, ..s } },
        ),
{
    lemma_run_one(Value::NumericAddr(n), s);
}

/// A number that is 0 or lies behind the last line is refused with that
/// number.
pub proof fn lemma_number_out_of_range(n: usize, s: StateView)
    requires
        n == 0 || n > s.dollar,
    ensures
        resolve(seq![Value::NumericAddr(n)], s) == Err::<Resolved, AddressErrorView>(
            AddressErrorView::LinumError(n),
        ),
{
    lemma_run_one(Value::NumericAddr(n), s);
}

/// `1,$` stands for the whole buffer, and counts as two addresses.
pub proof fn lemma_first_to_last(s: StateView)
    requires
        1 <= s.dollar,
    ensures
        resolve(
            seq![Value::NumericAddr(1), Value::Seperator(','), Value::SymbolicAddr('$')],
            s,
        ) == Ok::<Resolved, AddressErrorView>(
            Resolved {
                count: 2,
                state: StateView { address1: 1, address2: s.dollar, dot: s.dollar, ..s },
            },
        ),
{
    lemma_run_three(Value::NumericAddr(1), Value::Seperator(','), Value::SymbolicAddr('$'), s);
}

/// A `,` with no address on either side stands for the whole buffer, from
/// line 1 to the last line, and counts as no address. The range is not
/// narrowed to its last line.
pub proof fn lemma_bare_comma(s: StateView)
    requires
        1 <= s.dollar,
    ensures
        resolve(seq![Value::Empty, Value::Seperator(',')], s) == Ok::<Resolved, AddressErrorView>(
            Resolved {
                count: 0,
                state: StateView { address1: 1, address2: s.dollar, dot: s.dollar, ..s },
            },
        ),
        resolve(seq![Value::Seperator(',')], s) == resolve(
            seq![Value::Empty, Value::Seperator(',')],
            s,
        ),
{
    lemma_run_two(Value::Empty, Value::Seperator(','), s);
    lemma_run_one(Value::Seperator(','), s);
}

/// A `;` with no address on either side makes the last line of the range
/// that was resolved before the line that `.` stands for, and only then
/// supplies the range, which starts at that line, not at line 1, and ends at
/// the last line.
pub proof fn lemma_bare_semicolon(s: StateView)
    ensures
        run(seq![Value::Empty, Value::Seperator(';')], s) == (Working {
            addr1: s.address2,
            addr2: s.dollar,
            dot: s.address2,
            count: 0,
            defaulted: true,
        }),
        1 <= s.address2 <= s.dollar ==> resolve(seq![Value::Empty, Value::Seperator(';')], s)
            == Ok::<Resolved, AddressErrorView>(
            Resolved {
                count: 0,
                state: StateView { address1: s.address2, address2: s.dollar, dot: s.dollar, ..s },
            },
        ),
        !(1 <= s.address2 <= s.dollar) ==> resolve(seq![Value::Empty, Value::Seperator(';')], s)
            == Err::<Resolved, AddressErrorView>(AddressErrorView::LinumError(s.address2)),
        resolve(seq![Value::Seperator(';')], s) == resolve(
            seq![Value::Empty, Value::Seperator(';')],
            s,
        ),
{
    lemma_run_two(Value::Empty, Value::Seperator(';'), s);
    lemma_run_one(Value::Seperator(';'), s);
}

/// Where the range that was resolved before ended at the last line, the
/// current line after a bare `;` is the line at which that range ended.
pub proof fn lemma_bare_semicolon_dot(s: StateView)
    requires
        1 <= s.address2,
        s.address2 == s.dollar,
    ensures
        resolve(seq![Value::Empty, Value::Seperator(';')], s) is Ok,
        resolve(seq![Value::Empty, Value::Seperator(';')], s)->Ok_0.state.dot == s.address2,
{
    lemma_bare_semicolon(s);
}

/// Two lines of the buffer, the later one first, are no range.
pub proof fn lemma_descending_range(from: usize, to: usize, semicolon: bool, s: StateView)
    requires
        1 <= to < from <= s.dollar,
    ensures
        resolve(
            seq![
                Value::NumericAddr(from),
                Value::Seperator(
                    if semicolon {
                        ';'
                    } else {
                        ','
                    },
                ),
                Value::NumericAddr(to),
            ],
            s,
        ) == Err::<Resolved, AddressErrorView>(AddressErrorView::MalformedError),
{
    lemma_run_three(
        Value::NumericAddr(from),
        Value::Seperator(
            if semicolon {
                ';'
            } else {
                ','
            },
        ),
        Value::NumericAddr(to),
        s,
    );
}

/// Two lines of the buffer, the earlier one first, are the range between
/// them, and count as two addresses.
pub proof fn lemma_ascending_range(from: usize, to: usize, semicolon: bool, s: StateView)
    requires
        1 <= from <= to <= s.dollar,
    ensures
        resolve(
            seq![
                Value::NumericAddr(from),
                Value::Seperator(
                    if semicolon {
                        ';'
                    } else {
                        ','
                    },
                ),
                Value::NumericAddr(to),
            ],
            s,
        ) == Ok::<Resolved, AddressErrorView>(
            Resolved {
                count: 2,
                state: StateView { address1: from, address2: to, dot: to, ..s },
            },
        ),
{
    lemma_run_three(
        Value::NumericAddr(from),
        Value::Seperator(
            if semicolon {
                ';'
            } else {
                ','
            },
        ),
        Value::NumericAddr(to),
        s,
    );
}

/// The current line follows the range: after any range was resolved, `.`
/// alone stands for the last line of that range.
pub proof fn lemma_dot_follows_range(tokens: Seq<Value>, s: StateView)
    requires
        resolve(tokens, s) is Ok,
    ensures
        ({
            let after = resolve(tokens, s)->Ok_0.state;
            resolve(seq![Value::SymbolicAddr('.')], after) == Ok::<Resolved, AddressErrorView>(
                Resolved {
                    count: 1,
                    state: StateView { address1: after.address2, ..after },
                },
            )
        }),
{
    lemma_run_one(Value::SymbolicAddr('.'), resolve(tokens, s)->Ok_0.state);
}

} // verus!
