//! How an error is shown: the source text, with a caret and the message
//! below the line that the error belongs to.

use vstd::prelude::*;
use vstd::string::StringExecFns;
use crate::parser::find_char;
use crate::position::{Error, ErrorView};
use crate::text::{push_chars, to_chars};

verus! {

/// The marks that set off the heading and the message of a shown error.
#[derive(Clone, Copy, Debug)]
pub struct Style<'s> {
    /// What is written before the heading and before the message.
    pub emphasis: &'s str,
    /// What is written behind the heading and behind the message.
    pub plain: &'s str,
}

/// What a [`Style`] stands for.
pub struct StyleView {
    pub emphasis: Seq<char>,
    pub plain: Seq<char>,
}

impl<'s> View for Style<'s> {
    type V = StyleView;

    open spec fn view(&self) -> StyleView {
        StyleView { emphasis: self.emphasis@, plain: self.plain@ }
    }
}

/// The style of a terminal: bold red for the emphasis, bold in the default
/// colour behind it.
pub open spec fn terminal_style() -> StyleView {
    StyleView { emphasis: "\u{1b}[1;31m"@, plain: "\u{1b}[1;39m"@ }
}

/// `n` spaces.
pub open spec fn spaces(n: nat) -> Seq<char> {
    Seq::new(n, |i: int| ' ')
}

/// The number of bytes that `text` takes.
pub open spec fn width(text: Seq<char>) -> nat {
    vstd::utf8::encode_utf8(text).len()
}

/// The first line of a shown error: it names the file.
pub open spec fn heading(path: Seq<char>, style: StyleView) -> Seq<char> {
    style.emphasis + "Error in '"@ + path + "':"@ + style.plain + seq!['\n']
}

/// The two lines below the line that an error belongs to: a caret under the
/// error's column, and the message, which ends at that column where it is
/// short enough and starts at the left edge where it is not.
pub open spec fn marker(error: ErrorView, style: StyleView) -> Seq<char> {
    let column = error.position.column;
    let indent = if column >= width(error.message) {
        (column - width(error.message)) as nat
    } else {
        0
    };
    spaces(column) + seq!['^', '\n'] + spaces(indent) + style.emphasis + error.message
        + style.plain + seq!['\n']
}

/// The lines of `text` from the one that starts at `from`, which is line
/// number `line`, each with a line break behind it, and `marker` below line
/// number `marked`.
pub open spec fn lines_from(
    text: Seq<char>,
    from: nat,
    line: nat,
    marked: nat,
    marker: Seq<char>,
) -> Seq<char>
    decreases text.len() - from,
{
    let end = find_char(text, from, '\n');
    let this = text.subrange(from as int, end as int) + seq!['\n'] + if line == marked {
        marker
    } else {
        Seq::empty()
    };
    if from <= end < text.len() {
        this + lines_from(text, end + 1, line + 1, marked, marker)
    } else {
        this
    }
}

/// An error as it is shown: the heading, then the source text line by line,
/// with the caret and the message below the line of the error.
pub open spec fn shown(error: ErrorView, style: StyleView) -> Seq<char> {
    heading(error.position.path, style) + lines_from(
        error.position.src,
        0,
        0,
        error.position.line,
        marker(error, style),
    )
}

/// Showing is a function of the error and the style alone: two errors that
/// stand for the same thing are shown letter for letter the same, and so is
/// one error shown twice.
pub proof fn lemma_shown_alike(first: ErrorView, second: ErrorView, style: StyleView)
    requires
        first == second,
    ensures
        shown(first, style) == shown(second, style),
{
}

/// Appends `n` spaces to `out`.
fn push_spaces(out: &mut String, n: usize)
    ensures
        final(out)@ == old(out)@ + spaces(n as nat),
{
    let mut i: usize = 0;
    assert(out@ == old(out)@ + spaces(0));
    while i < n
        invariant
            i <= n,
            out@ == old(out)@ + spaces(i as nat),
        decreases n - i,
    {
        out.push(' ');
        assert(spaces(i as nat).push(' ') == spaces((i + 1) as nat));
        i += 1;
    }
}

impl<'s> Style<'s> {
    /// The style of a terminal.
    pub fn terminal() -> (style: Style<'static>)
        ensures
            style@ == terminal_style(),
    {
        Style { emphasis: "\u{1b}[1;31m", plain: "\u{1b}[1;39m" }
    }
}

impl<'a> Error<'a> {
    /// The two lines below the line that this error belongs to.
    fn marker(&self, style: &Style) -> (out: String)
        ensures
            out@ == marker(self@, style@),
    {
        let column = self.position.char;
        let wide = self.message.as_str().as_bytes().len();
        let indent = if column >= wide {
            column - wide
        } else {
            0
        };
        let mut out = String::new();
        push_spaces(&mut out, column);
        out.push('^');
        out.push('\n');
        push_spaces(&mut out, indent);
        out.append(style.emphasis);
        out.append(self.message.as_str());
        out.append(style.plain);
        out.push('\n');
        proof {
            broadcast use vstd::slice::axiom_spec_len;

            assert(wide == width(self@.message));
            assert(out@ =~= marker(self@, style@));
        }
        out
    }

    /// This error as it is shown in the style `style`.
    pub fn render_with(&self, style: &Style) -> (out: String)
        ensures
            out@ == shown(self@, style@),
    {
        let text = to_chars(self.position.src);
        let marker = self.marker(style);
        let marker = to_chars(marker.as_str());
        let mut out = String::new();
        out.append(style.emphasis);
        out.append("Error in '");
        out.append(self.position.path);
        out.append("':");
        out.append(style.plain);
        out.push('\n');
        proof {
            let head = style.emphasis@ + "Error in '"@ + self.position.path@ + "':"@
                + style.plain@;
            assert(Seq::<char>::empty() + style.emphasis@ == style.emphasis@);
            assert(head.push('\n') == head + seq!['\n']);
        }
        let ghost all = lines_from(text@, 0, 0, self.position.line as nat, marker@);
        let ghost head = out@;
        let mut from: usize = 0;
        let mut line: usize = 0;
        let mut done = false;
        while !done
            invariant
                text@ == self.position.src@,
                from <= text.len(),
                line <= from,
                !done ==> out@ + lines_from(
                    text@,
                    from as nat,
                    line as nat,
                    self.position.line as nat,
                    marker@,
                ) == head + all,
                done ==> out@ == head + all,
            decreases text.len() - from, if done { 0nat } else { 1nat },
        {
            let ghost before = out@;
            let mut end: usize = from;
            while end < text.len() && text[end] != '\n'
                invariant
                    from <= end <= text.len(),
                    find_char(text@, end as nat, '\n') == find_char(text@, from as nat, '\n'),
                    out@ == before + text@.subrange(from as int, end as int),
                decreases text.len() - end,
            {
                out.push(text[end]);
                assert(text@.subrange(from as int, end + 1) == text@.subrange(
                    from as int,
                    end as int,
                ).push(text@[end as int]));
                end += 1;
            }
            out.push('\n');
            if line == self.position.line {
                push_chars(&mut out, &marker);
            }
            proof {
                let this = text@.subrange(from as int, end as int) + seq!['\n'] + if line
                    == self.position.line {
                    marker@
                } else {
                    Seq::empty()
                };
                assert(out@ == before + this);
                if end < text.len() {
                    let rest = lines_from(
                        text@,
                        (end + 1) as nat,
                        (line + 1) as nat,
                        self.position.line as nat,
                        marker@,
                    );
                    assert(before + (this + rest) == before + this + rest);
                }
            }
            if end >= text.len() {
                done = true;
            } else {
                from = end + 1;
                line += 1;
            }
        }
        out
    }

    /// This error as it is shown on a terminal.
    pub fn render(&self) -> (out: String)
        ensures
            out@ == shown(self@, terminal_style()),
    {
        self.render_with(&Style::terminal())
    }
}

} // verus!
