//! Where in a source text something stands, and the errors that are pinned
//! to such a place.

use vstd::prelude::*;

verus! {

/// A source text and the name of the file it came from.
pub struct Source {
    pub path: Seq<char>,
    pub text: Seq<char>,
}

/// The number of line breaks among the first `offset` characters of `text`.
pub open spec fn line_at(text: Seq<char>, offset: nat) -> nat
    decreases offset,
{
    if offset == 0 {
        0
    } else if text[offset - 1] == '\n' {
        line_at(text, (offset - 1) as nat) + 1
    } else {
        line_at(text, (offset - 1) as nat)
    }
}

/// The number of characters between the last line break among the first
/// `offset` characters of `text` and the character at `offset`.
pub open spec fn column_at(text: Seq<char>, offset: nat) -> nat
    decreases offset,
{
    if offset == 0 {
        0
    } else if text[offset - 1] == '\n' {
        0
    } else {
        column_at(text, (offset - 1) as nat) + 1
    }
}

impl Source {
    /// The position of the character at `offset`.
    pub open spec fn position(self, offset: nat) -> PositionView {
        PositionView {
            path: self.path,
            src: self.text,
            line: line_at(self.text, offset),
            column: column_at(self.text, offset),
        }
    }

    /// The text from `offset` on.
    pub open spec fn tail(self, offset: nat) -> Seq<char> {
        self.text.skip(offset as int)
    }

    /// An error with `message` at `offset`.
    pub open spec fn error(self, offset: nat, message: Seq<char>) -> ErrorView {
        ErrorView { message, position: self.position(offset) }
    }
}

/// Line and column are bounded by the offset they belong to.
pub proof fn lemma_position_bounded(text: Seq<char>, offset: nat)
    ensures
        line_at(text, offset) <= offset,
        column_at(text, offset) <= offset,
    decreases offset,
{
    if offset > 0 {
        lemma_position_bounded(text, (offset - 1) as nat);
    }
}

/// Whether the place `(line_a, column_a)` comes before `(line_b, column_b)`.
pub open spec fn place_before(line_a: nat, column_a: nat, line_b: nat, column_b: nat) -> bool {
    line_a < line_b || (line_a == line_b && column_a < column_b)
}

/// Reading on moves the position forward: a later offset in a text has a
/// later line, or the same line and a later column.
pub proof fn lemma_position_advances(text: Seq<char>, earlier: nat, later: nat)
    requires
        earlier < later,
    ensures
        place_before(
            line_at(text, earlier),
            column_at(text, earlier),
            line_at(text, later),
            column_at(text, later),
        ),
    decreases later - earlier,
{
    if earlier + 1 < later {
        lemma_position_advances(text, earlier, (later - 1) as nat);
    }
}

/// A place in a source text: the file, the whole text, and the line and
/// column, both counted from zero.
#[derive(Clone, Copy, Debug)]
pub struct Position<'a> {
    pub path: &'a str,
    pub src: &'a str,
    pub line: usize,
    pub char: usize,
}

/// What a [`Position`] stands for.
pub struct PositionView {
    pub path: Seq<char>,
    pub src: Seq<char>,
    pub line: nat,
    pub column: nat,
}

impl<'a> View for Position<'a> {
    type V = PositionView;

    open spec fn view(&self) -> PositionView {
        PositionView {
            path: self.path@,
            src: self.src@,
            line: self.line as nat,
            column: self.char as nat,
        }
    }
}

/// A message pinned to a place in a source text.
#[derive(Debug)]
pub struct Error<'a> {
    pub message: String,
    pub position: Position<'a>,
}

/// What an [`Error`] stands for.
pub struct ErrorView {
    pub message: Seq<char>,
    pub position: PositionView,
}

impl<'a> View for Error<'a> {
    type V = ErrorView;

    open spec fn view(&self) -> ErrorView {
        ErrorView { message: self.message@, position: self.position@ }
    }
}

impl<'a> Position<'a> {
    /// An error with `message` at this position.
    pub fn error(&self, message: String) -> (error: Error<'a>)
        ensures
            error@ == (ErrorView { message: message@, position: self@ }),
    {
        Error { message, position: *self }
    }

    /// An error at this position whose message is `message`.
    pub fn error_str(&self, message: &str) -> (error: Error<'a>)
        ensures
            error@ == (ErrorView { message: message@, position: self@ }),
    {
        Error { message: message.to_owned(), position: *self }
    }
}

} // verus!
