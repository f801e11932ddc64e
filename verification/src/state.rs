//! The editor's session state.

use vstd::prelude::*;

verus! {

/// Whether typed lines are read as commands or as text to insert.
#[derive(Clone, Copy, Debug, PartialEq, Eq, Structural)]
pub enum Mode {
    Command,
    Insert,
}

impl Mode {
    /// The other mode.
    pub open spec fn flipped(self) -> Mode {
        match self {
            Mode::Command => Mode::Insert,
            Mode::Insert => Mode::Command,
        }
    }
}

/// The texts of `lines` as sequences of characters.
pub open spec fn line_texts(lines: Seq<String>) -> Seq<Seq<char>> {
    lines.map_values(|line: String| line@)
}

/// What a session starts from: the prompt, and the lines of the file that is
/// edited.
pub struct EditorConfig {
    prompt: String,
    lines: Vec<String>,
}

impl EditorConfig {
    /// The prompt that is shown before each command.
    pub closed spec fn prompt(&self) -> Seq<char> {
        self.prompt@
    }

    /// The lines of the file, first line first.
    pub closed spec fn lines(&self) -> Seq<Seq<char>> {
        line_texts(self.lines@)
    }

    /// A configuration with the prompt `prompt` for a file that holds `lines`.
    pub fn new(prompt: String, lines: Vec<String>) -> (config: Self)
        ensures
            config.prompt() == prompt@,
            config.lines() == line_texts(lines@),
    {
        EditorConfig { prompt, lines }
    }
}

/// An [`EditorState`] as contracts see it.
pub ghost struct StateView {
    /// The prompt that is shown before each command.
    pub prompt: Seq<char>,
    /// The mode that the editor is in.
    pub mode: Mode,
    /// The lines of the buffer. Line `n` of the file is `buffer[n]`, and
    /// `buffer[0]` is an empty line that belongs to no file.
    pub buffer: Seq<Seq<char>>,
    /// The current line.
    pub dot: usize,
    /// The number of the last line.
    pub dollar: usize,
    /// The first line of the range that was resolved last.
    pub address1: usize,
    /// The last line of the range that was resolved last.
    pub address2: usize,
}

impl StateView {
    /// The buffer holds the lines 0 to `dollar`, the range is no longer than
    /// the buffer and does not end before it starts, and the current line is
    /// a line of the buffer.
    pub open spec fn wf(self) -> bool {
        &&& self.buffer.len() == self.dollar + 1
        &&& self.address1 <= self.address2 <= self.dollar
        &&& self.dot <= self.dollar
    }
}

/// The current line and the range that was resolved last. They change
/// together.
struct Marks {
    dot: usize,
    address1: usize,
    address2: usize,
}

/// The state of an editing session.
pub struct EditorState {
    prompt: String,
    current_mode: Mode,
    buffer: Vec<String>,
    dollar: usize,
    marks: Marks,
}

impl View for EditorState {
    type V = StateView;

    closed spec fn view(&self) -> StateView {
        StateView {
            prompt: self.prompt@,
            mode: self.current_mode,
            buffer: line_texts(self.buffer@),
            dot: self.marks.dot,
            dollar: self.dollar,
            address1: self.marks.address1,
            address2: self.marks.address2,
        }
    }
}

impl EditorState {
    /// Every state is well formed, as [`StateView::wf`] says.
    #[verifier::type_invariant]
    pub open spec fn wf(&self) -> bool {
        self@.wf()
    }

    /// The state in which a session starts: in command mode, with the lines
    /// of the file behind an empty line 0, and with the current line and the
    /// range at the last line.
    pub fn new(config: EditorConfig) -> (state: Self)
        ensures
            state@ == (StateView {
                prompt: config.prompt(),
                mode: Mode::Command,
                buffer: seq![Seq::<char>::empty()] + config.lines(),
                dot: config.lines().len() as usize,
                dollar: config.lines().len() as usize,
                address1: config.lines().len() as usize,
                address2: config.lines().len() as usize,
            }),
            config.lines().len() <= usize::MAX,
    {
        let mut buffer = config.lines;
        buffer.insert(0, String::new());
        assert(line_texts(buffer@) == seq![Seq::<char>::empty()] + config.lines());
        let dollar = buffer.len() - 1;
        EditorState {
            prompt: config.prompt,
            current_mode: Mode::Command,
            buffer,
            dollar,
            marks: Marks { dot: dollar, address1: dollar, address2: dollar },
        }
    }

    /// Switches between command mode and insert mode.
    pub fn flip_mode(&mut self)
        ensures
            final(self)@ == (StateView { mode: old(self)@.mode.flipped(), ..old(self)@ }),
    {
        proof {
            use_type_invariant(&*self);
        }
        match self.current_mode {
            Mode::Command => {
                self.current_mode = Mode::Insert;
            },
            Mode::Insert => {
                self.current_mode = Mode::Command;
            },
        }
    }

    /// The prompt that is shown before each command.
    pub fn prompt(&self) -> (prompt: &String)
        ensures
            prompt@ == self@.prompt,
    {
        &self.prompt
    }

    /// The mode that the editor is in.
    pub fn current_mode(&self) -> (mode: Mode)
        ensures
            mode == self@.mode,
    {
        self.current_mode
    }

    /// The current line.
    pub fn dot(&self) -> (dot: usize)
        ensures
            dot == self@.dot,
            dot <= self@.dollar,
    {
        proof {
            use_type_invariant(self);
        }
        self.marks.dot
    }

    /// The number of the last line.
    pub fn dollar(&self) -> (dollar: usize)
        ensures
            dollar == self@.dollar,
            dollar + 1 == self@.buffer.len(),
    {
        proof {
            use_type_invariant(self);
        }
        self.dollar
    }

    /// The first line of the range that was resolved last.
    pub fn address1(&self) -> (address1: usize)
        ensures
            address1 == self@.address1,
            address1 <= self@.address2,
    {
        proof {
            use_type_invariant(self);
        }
        self.marks.address1
    }

    /// The last line of the range that was resolved last.
    pub fn address2(&self) -> (address2: usize)
        ensures
            address2 == self@.address2,
            address2 <= self@.dollar,
    {
        proof {
            use_type_invariant(self);
        }
        self.marks.address2
    }

    /// The line with the number `number`, where the buffer has one. Line 0 is
    /// the empty line in front of the file.
    pub fn line(&self, number: usize) -> (line: Option<&String>)
        ensures
            match line {
                Some(text) => number <= self@.dollar && text@ == self@.buffer[number as int],
                None => number > self@.dollar,
            },
    {
        proof {
            use_type_invariant(self);
        }
        if number <= self.dollar {
            Some(&self.buffer[number])
        } else {
            None
        }
    }

    /// Makes `address1` to `address2` the range, and `address2` the current
    /// line.
    pub(crate) fn commit(&mut self, address1: usize, address2: usize)
        requires
            address1 <= address2 <= old(self)@.dollar,
        ensures
            final(self)@ == (StateView {
                address1,
                address2,
                dot: address2,
                ..old(self)@
            }),
    {
        proof {
            use_type_invariant(&*self);
        }
        self.marks = Marks { dot: address2, address1, address2 };
    }
}

} // verus!
