//! The resolver: from address tokens to the line range of a command.

use crate::addressing::token::{AddressError, AddressErrorView, Value};
use crate::state::{EditorState, StateView};
use vstd::prelude::*;

verus! {

/// What the resolver works on while it goes through the tokens.
pub ghost struct Working {
    /// The first line of the range, as far as it is known.
    pub addr1: usize,
    /// The address that is being written, which becomes the last line of the
    /// range.
    pub addr2: usize,
    /// The line that `.` stands for.
    pub dot: usize,
    /// How many addresses were written; -1 as long as no token was read.
    pub count: int,
    /// Whether a separator with no address before it supplied a range.
    pub defaulted: bool,
}

/// A range that was resolved.
pub ghost struct Resolved {
    /// How many addresses the expression wrote: -1 for no token at all, 0
    /// where every address was left out or supplied by a separator.
    pub count: int,
    /// The state with the range and the current line set.
    pub state: StateView,
}

/// The count once a token was read: no longer -1.
pub open spec fn started(count: int) -> int {
    if count < 0 {
        0
    } else {
        count
    }
}

/// The line after `line`; the largest `usize` stays where it is.
pub open spec fn one_further(line: usize) -> usize {
    if line < usize::MAX {
        (line + 1) as usize
    } else {
        line
    }
}

/// The line before `line`; line 0 stays where it is.
pub open spec fn one_back(line: usize) -> usize {
    if line > 0 {
        (line - 1) as usize
    } else {
        line
    }
}

/// Where the resolver starts: at the range and the current line of `s`, with
/// no address written.
pub open spec fn start(s: StateView) -> Working {
    Working { addr1: s.address1, addr2: s.address2, dot: s.dot, count: -1, defaulted: false }
}

/// A separator between two addresses: what was written becomes the first
/// line of the range, and `;` also makes it the line that `.` stands for.
/// With no address written so far, the separator supplies a range that ends
/// at the last line. After `,` it starts at line 1. After `;` it starts at
/// the line that was the end of the range before.
pub open spec fn separate(w: Working, semicolon: bool, s: StateView) -> Working {
    let dot = if semicolon {
        w.addr2
    } else {
        w.dot
    };
    if w.count <= 0 {
        Working {
            addr1: if semicolon {
                w.addr2
            } else {
                1
            },
            addr2: s.dollar,
            dot,
            count: 0,
            defaulted: true,
        }
    } else {
        Working { addr1: w.addr2, dot, ..w }
    }
}

/// The effect of one token.
///
/// A number, `.` and `$` write a new address and count as one. `+` and `-`
/// move the address that is being written by one line and do not count. A
/// left-out address goes back to the range of `s`. A symbol other than the
/// four only starts the count, and a separator other than `,` and `;` does
/// nothing.
pub open spec fn step(w: Working, token: Value, s: StateView) -> Working {
    match token {
        Value::NumericAddr(n) => Working { addr2: n, count: started(w.count) + 1, ..w },
        Value::SymbolicAddr(c) => if c == '.' {
            Working { addr2: w.dot, count: started(w.count) + 1, ..w }
        } else if c == '$' {
            Working { addr2: s.dollar, count: started(w.count) + 1, ..w }
        } else if c == '+' {
            Working { addr2: one_further(w.addr2), count: started(w.count), ..w }
        } else if c == '-' {
            Working { addr2: one_back(w.addr2), count: started(w.count), ..w }
        } else {
            Working { count: started(w.count), ..w }
        },
        Value::Seperator(c) => if c == ',' {
            separate(w, false, s)
        } else if c == ';' {
            separate(w, true, s)
        } else {
            w
        },
        Value::Empty => Working {
            addr1: s.address1,
            addr2: s.address2,
            count: started(w.count),
            ..w
        },
    }
}

/// The effect of `tokens`, read from left to right, on the state `s`.
pub open spec fn run(tokens: Seq<Value>, s: StateView) -> Working
    decreases tokens.len(),
{
    if tokens.len() == 0 {
        start(s)
    } else {
        step(run(tokens.drop_last(), s), tokens.last(), s)
    }
}

/// What holds once all tokens are read: an expression of at most one address
/// stands for that one line, unless a separator supplied the range; and the
/// last line of the range is the current line.
pub open spec fn settle(w: Working) -> Working {
    Working {
        addr1: if w.count <= 1 && !w.defaulted {
            w.addr2
        } else {
            w.addr1
        },
        dot: w.addr2,
        ..w
    }
}

/// The range of `w`, if it is one of `s`: both ends are lines of the buffer
/// other than line 0, and the range does not end before it starts.
pub open spec fn validate(w: Working, s: StateView) -> Result<Resolved, AddressErrorView> {
    if w.addr1 > s.dollar || w.addr1 == 0 {
        Err(AddressErrorView::LinumError(w.addr1))
    } else if w.addr2 > s.dollar || w.addr2 == 0 {
        Err(AddressErrorView::LinumError(w.addr2))
    } else if w.addr1 > w.addr2 {
        Err(AddressErrorView::MalformedError)
    } else {
        Ok(
            Resolved {
                count: w.count,
                state: StateView { address1: w.addr1, address2: w.addr2, dot: w.dot, ..s },
            },
        )
    }
}

/// The range that `tokens` stand for in the state `s`, or why they stand for
/// none.
pub open spec fn resolve(tokens: Seq<Value>, s: StateView) -> Result<Resolved, AddressErrorView> {
    validate(settle(run(tokens, s)), s)
}

/// No more addresses are counted than there are tokens.
pub proof fn lemma_count_bounds(tokens: Seq<Value>, s: StateView)
    ensures
        -1 <= run(tokens, s).count <= tokens.len(),
    decreases tokens.len(),
{
    if tokens.len() > 0 {
        lemma_count_bounds(tokens.drop_last(), s);
    }
}

/// Reads `address_vec` against `state` and sets the range and the current
/// line of `state`.
///
/// Returns how many addresses were written. Where the tokens stand for no
/// range of the buffer, the error says why and `state` stays as it was.
/// There are no more tokens than an `i32` can count.
pub fn set_addresses(address_vec: Vec<Value>, state: &mut EditorState) -> (outcome: Result<
    i32,
    AddressError,
>)
    requires
        address_vec.len() <= i32::MAX,
    ensures
        match resolve(address_vec@, old(state)@) {
            Ok(resolved) => {
                &&& outcome == Ok::<i32, AddressError>(resolved.count as i32)
                &&& final(state)@ == resolved.state
            },
            Err(error) => {
                &&& outcome matches Err(e)
                &&& e@ == error
                &&& final(state)@ == old(state)@
            },
        },
{
    let ghost s = state@;
    let dollar = state.dollar();
    let mut num_addrs: i32 = -1;
    let mut temp_addr1 = state.address1();
    let mut temp_addr2 = state.address2();
    let mut temp_dot = state.dot();
    let mut first = false;
    let mut at: usize = 0;
    assert(address_vec@.take(0) == Seq::<Value>::empty());
    while at < address_vec.len()
        invariant
            at <= address_vec.len() <= i32::MAX,
            state@ == s,
            dollar == s.dollar,
            -1 <= num_addrs <= at,
            run(address_vec@.take(at as int), s) == (Working {
                addr1: temp_addr1,
                addr2: temp_addr2,
                dot: temp_dot,
                count: num_addrs as int,
                defaulted: first,
            }),
        decreases address_vec.len() - at,
    {
        assert(address_vec@.take(at + 1).drop_last() == address_vec@.take(at as int));
        match address_vec[at] {
            Value::NumericAddr(num) => {
                if num_addrs == -1 {
                    num_addrs = 0;
                }
                temp_addr2 = num;
                num_addrs += 1;
            },
            Value::SymbolicAddr(sym) => {
                if num_addrs == -1 {
                    num_addrs = 0;
                }
                if sym == '.' {
                    temp_addr2 = temp_dot;
                    num_addrs += 1;
                } else if sym == '$' {
                    temp_addr2 = dollar;
                    num_addrs += 1;
                } else if sym == '+' {
                    temp_addr2 = temp_addr2.saturating_add(1);
                } else if sym == '-' {
                    temp_addr2 = temp_addr2.saturating_sub(1);
                }
            },
            Value::Seperator(c) => {
                if c == ',' || c == ';' {
                    if c == ';' {
                        temp_dot = temp_addr2;
                    }
                    temp_addr1 = temp_addr2;
                    if num_addrs <= 0 {
                        num_addrs = 0;
                        if c == ',' {
                            temp_addr1 = 1;
                        }
                        temp_addr2 = dollar;
                        first = true;
                    }
                }
            },
            Value::Empty => {
                if num_addrs == -1 {
                    num_addrs = 0;
                }
                temp_addr1 = state.address1();
                temp_addr2 = state.address2();
            },
        }
        at += 1;
    }
    assert(address_vec@.take(address_vec.len() as int) == address_vec@);

    if num_addrs <= 1 && !first {
        temp_addr1 = temp_addr2;
    }
    if temp_addr1 > dollar || temp_addr1 == 0 {
        return Err(AddressError::LinumError(temp_addr1));
    }
    if temp_addr2 > dollar || temp_addr2 == 0 {
        return Err(AddressError::LinumError(temp_addr2));
    }
    if temp_addr1 > temp_addr2 {
        return Err(AddressError::MalformedError);
    }
    state.commit(temp_addr1, temp_addr2);
    Ok(num_addrs)
}

} // verus!
