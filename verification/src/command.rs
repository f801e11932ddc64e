//! What a command letter asks the editor to do.

use crate::addressing::input::EditorInput;
use crate::state::{EditorState, StateView};
use vstd::prelude::*;

verus! {

/// What is left to do once a command was read.
#[derive(Clone, Copy, Debug, PartialEq, Eq, Structural)]
pub enum Action {
    /// Nothing: the command has changed the state, and that was all.
    Done,
    /// Print the lines `first` to `last` of the buffer.
    Print { first: usize, last: usize },
    /// End the session.
    Quit,
    /// Tell the user that the command was not understood.
    Unknown,
}

/// What the command letter `letter` asks for after an address expression
/// that wrote `num_addrs` addresses.
///
/// `p` prints the range, and `Q` quits. No letter at all prints the current
/// line, unless no token was read either. Every other letter is unknown; `a`
/// is known and prints nothing.
pub open spec fn action_for(letter: Option<char>, s: StateView, num_addrs: i32) -> Action {
    match letter {
        Some(c) => if c == 'a' {
            Action::Done
        } else if c == 'p' {
            Action::Print { first: s.address1, last: s.address2 }
        } else if c == 'Q' {
            Action::Quit
        } else {
            Action::Unknown
        },
        None => if num_addrs >= 0 {
            Action::Print { first: s.dot, last: s.dot }
        } else {
            Action::Unknown
        },
    }
}

/// The state after the command letter `letter`: `a` switches the mode, and
/// no other letter changes anything.
pub open spec fn state_after(letter: Option<char>, s: StateView) -> StateView {
    if letter == Some('a') {
        StateView { mode: s.mode.flipped(), ..s }
    } else {
        s
    }
}

/// The character at the cursor, if there is one.
pub open spec fn letter_at(text: Seq<char>, pos: int) -> Option<char> {
    if 0 <= pos < text.len() {
        Some(text[pos])
    } else {
        None
    }
}

/// Reads the command letter at the cursor, changes `state` as the command
/// asks and says what is left to do.
///
/// The lines that are to be printed are lines of the buffer.
pub fn execute_commands(
    input: &mut EditorInput,
    state: &mut EditorState,
    num_addrs: i32,
) -> (action: Action)
    ensures
        final(input).characters() == old(input).characters(),
        final(input).position() == if old(input).position() < old(input).characters().len() {
            old(input).position() + 1
        } else {
            old(input).position()
        },
        action == action_for(
            letter_at(old(input).characters(), old(input).position() as int),
            old(state)@,
            num_addrs,
        ),
        final(state)@ == state_after(
            letter_at(old(input).characters(), old(input).position() as int),
            old(state)@,
        ),
        action matches Action::Print { first, last } ==> first <= last < final(state)@.buffer.len(),
{
    let first = state.address1();
    let last = state.address2();
    let dot = state.dot();
    proof {
        use_type_invariant(&*state);
    }
    match input.pop() {
        Some(current) => {
            let c = *current;
            if c == 'a' {
                state.flip_mode();
                Action::Done
            } else if c == 'p' {
                Action::Print { first, last }
            } else if c == 'Q' {
                Action::Quit
            } else {
                Action::Unknown
            }
        },
        None => {
            if num_addrs >= 0 {
                Action::Print { first: dot, last: dot }
            } else {
                Action::Unknown
            }
        },
    }
}

} // verus!
