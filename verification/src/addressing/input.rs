//! A cursor over the characters of one command line.

use vstd::prelude::*;

verus! {

/// The characters of one command line and the place up to which they have
/// been read.
pub struct EditorInput {
    point: usize,
    line: Vec<char>,
}

impl EditorInput {
    /// How many characters have been consumed.
    pub closed spec fn position(&self) -> nat {
        self.point as nat
    }

    /// All characters of the line, consumed or not.
    pub closed spec fn characters(&self) -> Seq<char> {
        self.line@
    }

    /// The characters that have not been consumed yet.
    pub open spec fn remaining(&self) -> Seq<char> {
        self.characters().skip(self.position() as int)
    }

    /// The cursor never stands behind the end of its line.
    #[verifier::type_invariant]
    pub open spec fn within_line(&self) -> bool {
        self.position() <= self.characters().len()
    }

    /// A cursor at the start of `string`.
    pub fn new(string: &str) -> (input: Self)
        ensures
            input.position() == 0,
            input.characters() == string@,
    {
        let mut line: Vec<char> = Vec::new();
        for c in it: string.chars()
            invariant
                line@ == it.seq().take(it.index() as int),
        {
            line.push(c);
        }
        EditorInput { point: 0, line }
    }

    /// The current character, which stays unconsumed; `None` at the end of
    /// the line.
    pub fn peek(&self) -> (current: Option<&char>)
        ensures
            self.position() <= self.characters().len(),
            match current {
                Some(c) => self.position() < self.characters().len() && *c
                    == self.characters()[self.position() as int],
                None => self.position() == self.characters().len(),
            },
    {
        proof {
            use_type_invariant(self);
        }
        if self.point < self.line.len() {
            Some(&self.line[self.point])
        } else {
            None
        }
    }

    /// Whether every character has been consumed.
    pub fn end_of_line(&self) -> (at_end: bool)
        ensures
            self.position() <= self.characters().len(),
            at_end == (self.position() == self.characters().len()),
    {
        proof {
            use_type_invariant(self);
        }
        self.point == self.line.len()
    }

    /// Consumes the current character and returns it; at the end of the line
    /// returns `None` and leaves the cursor where it is.
    pub fn pop(&mut self) -> (current: Option<&char>)
        ensures
            final(self).characters() == old(self).characters(),
            final(self).position() <= final(self).characters().len(),
            match current {
                Some(c) => {
                    &&& old(self).position() < old(self).characters().len()
                    &&& *c == old(self).characters()[old(self).position() as int]
                    &&& final(self).position() == old(self).position() + 1
                },
                None => {
                    &&& old(self).position() == old(self).characters().len()
                    &&& final(self).position() == old(self).position()
                },
            },
    {
        proof {
            use_type_invariant(&*self);
        }
        if self.point < self.line.len() {
            self.point += 1;
            Some(&self.line[self.point - 1])
        } else {
            None
        }
    }
}

} // verus!
