//! The productions of the grammar on a reader. Each one yields what the
//! grammar says stands at the reader's offset, and leaves the reader behind
//! what it has read.

use vstd::prelude::*;
use vstd::string::StringExecFns;
use crate::grammar::{
    Outcome, OpenTagView, attribute_at, attributes_at, body_at, close_tag_at, content_at,
    duplicate_message, element_at, name_at, name_end, open_tag_at, quoted_rest, value_at,
    lemma_attribute_bounds, lemma_content_bounds, lemma_open_tag_bounds,
    lemma_whitespace_end_bounds, lemma_whitespace_end_idempotent,
};
use crate::parser::{Parser, find_char};
use crate::position::{Error, Position, Source};
use crate::text::{letter_ignoring_case, name_char, name_start};
use crate::tree::{
    Attribute, AttributeView, Content, ContentView, Element, attribute_views, content_views,
    find_attribute, lemma_attribute_views_push, lemma_content_views_push,
};

verus! {

/// Whether `result`, with the reader left at `end`, is what a production
/// with the outcome `outcome` yields to a reader at `start`: nothing, with
/// the reader where it was, where it declines; its value, with the reader
/// behind it, where it succeeds; its error where it fails.
pub open spec fn produced<T: View>(
    outcome: Outcome<T::V>,
    start: nat,
    result: Option<Result<T, Error>>,
    end: nat,
) -> bool {
    match outcome {
        Outcome::Decline => result is None && end == start,
        Outcome::Success { value, end: behind } => {
            &&& result matches Some(Ok(found))
            &&& found@ == value
            &&& end == behind
        },
        Outcome::Failure { error } => {
            &&& result matches Some(Err(found))
            &&& found@ == error
        },
    }
}

/// Whether the character `n` places ahead may stand in a name.
fn name_char_ahead(parser: &Parser, n: usize) -> (ahead: bool)
    requires
        parser.wf(),
    ensures
        ahead == (parser.offset() + n < parser.source().text.len() && crate::text::is_name_char(
            parser.source().text[parser.offset() + n],
        )),
        ahead ==> n < usize::MAX,
{
    proof {
        parser.lemma_offset_bounded();
    }
    match parser.peek_at(n) {
        Some(c) => name_char(c),
        None => false,
    }
}

/// Whether a character other than `<` stands `n` places ahead.
fn text_ahead(parser: &Parser, n: usize) -> (ahead: bool)
    requires
        parser.wf(),
    ensures
        ahead == (parser.offset() + n < parser.source().text.len() && parser.source().text[
            parser.offset() + n
        ] != '<'),
        ahead ==> n < usize::MAX,
{
    proof {
        parser.lemma_offset_bounded();
    }
    match parser.peek_at(n) {
        Some(c) => c != '<',
        None => false,
    }
}

/// Reads a name, if one stands here.
#[verifier::loop_isolation(false)]
pub fn name(parser: &mut Parser) -> (found: Option<String>)
    requires
        old(parser).wf(),
    ensures
        final(parser).wf(),
        final(parser).source() == old(parser).source(),
        match name_at(old(parser).source().text, old(parser).offset()) {
            Some(end) => {
                &&& found matches Some(name)
                &&& name@ == old(parser).source().text.subrange(
                    old(parser).offset() as int,
                    end as int,
                )
                &&& final(parser).offset() == end
            },
            None => found is None && final(parser).offset() == old(parser).offset(),
        },
{
    let ghost text = parser.source().text;
    let ghost start = parser.offset();
    proof {
        parser.lemma_offset_bounded();
    }
    match parser.peek() {
        Some(c) => {
            if !name_start(c) {
                return None;
            }
        },
        None => {
            return None;
        },
    }
    match (parser.peek(), parser.peek_at(1), parser.peek_at(2)) {
        (Some(x), Some(m), Some(l)) => {
            if letter_ignoring_case(x, 'x') && letter_ignoring_case(m, 'm') && letter_ignoring_case(
                l,
                'l',
            ) {
                return None;
            }
        },
        _ => {},
    }
    let mut n: usize = 0;
    while name_char_ahead(parser, n)
        invariant
            parser.wf(),
            parser.source().text == text,
            parser.offset() == start,
            start + n <= text.len(),
            name_end(text, (start + n) as nat) == name_end(text, start),
        decreases text.len() - n,
    {
        n += 1;
    }
    Some(parser.take(n))
}

/// Reads a quoted value, if one stands here. Where the text ends before the
/// closing quote, or a backslash stands before anything but a backslash or a
/// quote, nothing is read.
#[verifier::loop_isolation(false)]
pub fn attribute_value(parser: &mut Parser) -> (found: Option<String>)
    requires
        old(parser).wf(),
    ensures
        final(parser).wf(),
        final(parser).source() == old(parser).source(),
        match value_at(old(parser).source().text, old(parser).offset()) {
            Some((value, end)) => {
                &&& found matches Some(read)
                &&& read@ == value
                &&& final(parser).offset() == end
            },
            None => found is None && final(parser).offset() == old(parser).offset(),
        },
{
    let ghost text = parser.source().text;
    let ghost start = parser.offset();
    proof {
        parser.lemma_offset_bounded();
    }
    let quote = match parser.peek() {
        Some(c) => {
            if c == '"' || c == '\'' {
                c
            } else {
                return None;
            }
        },
        None => {
            return None;
        },
    };
    let back_to = parser.consumed();
    let back_at = parser.position();
    parser.skip(1);
    let mut value = String::new();
    let mut closed = false;
    while !closed
        invariant
            parser.wf(),
            parser.source() == old(parser).source(),
            start < parser.offset() <= text.len(),
            !closed ==> quoted_rest(text, start + 1, quote) == match quoted_rest(
                text,
                parser.offset(),
                quote,
            ) {
                Some((rest, end)) => Some((value@ + rest, end)),
                None => None,
            },
            closed ==> quoted_rest(text, start + 1, quote) == Some((value@, parser.offset())),
        decreases text.len() - parser.offset(), if closed { 0nat } else { 1nat },
    {
        let ghost at = parser.offset();
        let ghost before = value@;
        match parser.take_char() {
            None => {
                parser.restore(back_to, back_at);
                return None;
            },
            Some(c) => {
                if c == '\\' {
                    match parser.take_char() {
                        Some(escaped) => {
                            if escaped == '\\' || escaped == '\'' || escaped == '"' {
                                value.push(escaped);
                                proof {
                                    match quoted_rest(text, at + 2, quote) {
                                        Some((rest, end)) => {
                                            assert(before + (seq![escaped] + rest) == before.push(
                                                escaped,
                                            ) + rest);
                                        },
                                        None => {},
                                    }
                                }
                            } else {
                                parser.restore(back_to, back_at);
                                return None;
                            }
                        },
                        None => {
                            parser.restore(back_to, back_at);
                            return None;
                        },
                    }
                } else if c == quote {
                    assert(before + Seq::<char>::empty() == before);
                    closed = true;
                } else {
                    value.push(c);
                    proof {
                        match quoted_rest(text, at + 1, quote) {
                            Some((rest, end)) => {
                                assert(before + (seq![c] + rest) == before.push(c) + rest);
                            },
                            None => {},
                        }
                    }
                }
            },
        }
    }
    Some(value)
}

/// Reads an attribute, if one stands here: a name, alone or with `=` and a
/// quoted value behind it. A `=` without a quoted value behind it is an
/// error.
pub fn attribute<'a>(parser: &mut Parser<'a>) -> (result: Option<Result<Attribute<'a>, Error<'a>>>)
    requires
        old(parser).wf(),
    ensures
        final(parser).wf(),
        final(parser).source() == old(parser).source(),
        produced(
            attribute_at(old(parser).source(), old(parser).offset()),
            old(parser).offset(),
            result,
            final(parser).offset(),
        ),
{
    let found = match name(parser) {
        Some(found) => found,
        None => {
            return None;
        },
    };
    let has_value = match parser.peek() {
        Some(c) => c == '=',
        None => false,
    };
    if !has_value {
        return Some(Ok(Attribute { name: found, value: None, position: parser.position() }));
    }
    parser.skip(1);
    match attribute_value(parser) {
        Some(value) => Some(
            Ok(Attribute { name: found, value: Some(value), position: parser.position() }),
        ),
        None => Some(Err(parser.position().error_str("expected attribute value"))),
    }
}

/// An opening tag.
pub struct OpenTag<'a> {
    pub name: String,
    pub attributes: Vec<Attribute<'a>>,
    pub self_closing: bool,
    pub position: Position<'a>,
}

impl<'a> View for OpenTag<'a> {
    type V = OpenTagView;

    open spec fn view(&self) -> OpenTagView {
        OpenTagView {
            name: self.name@,
            attributes: attribute_views(self.attributes@),
            self_closing: self.self_closing,
            position: self.position@,
        }
    }
}

/// The message for a second attribute named `name`.
fn duplicate(name: &str) -> (message: String)
    ensures
        message@ == duplicate_message(name@),
{
    let mut message = "found duplicate '".to_owned();
    message.append(name);
    message.append("' attribute");
    message
}

/// Reads an opening tag, if `<` stands here: a name, attributes with white
/// space between them, and `>` or `/>`. No attribute name may come twice.
#[verifier::loop_isolation(false)]
pub fn open_tag<'a>(parser: &mut Parser<'a>) -> (result: Option<Result<OpenTag<'a>, Error<'a>>>)
    requires
        old(parser).wf(),
    ensures
        final(parser).wf(),
        final(parser).source() == old(parser).source(),
        produced(
            open_tag_at(old(parser).source(), old(parser).offset()),
            old(parser).offset(),
            result,
            final(parser).offset(),
        ),
{
    let ghost source = parser.source();
    let ghost start = parser.offset();
    proof {
        parser.lemma_offset_bounded();
    }
    match parser.peek() {
        Some(c) => {
            if c != '<' {
                return None;
            }
        },
        None => {
            return None;
        },
    }
    parser.skip(1);
    let found = match name(parser) {
        Some(found) => found,
        None => {
            return Some(Err(parser.position().error_str("expected element name")));
        },
    };
    parser.take_whitespace();
    let mut attributes: Vec<Attribute<'a>> = Vec::new();
    assert(attribute_views(attributes@) == Seq::<AttributeView>::empty());
    let mut more = true;
    while more
        invariant
            parser.wf(),
            parser.source() == source,
            open_tag_at(source, start) == attributes_at(
                source,
                parser.offset(),
                found@,
                attribute_views(attributes@),
            ),
            !more ==> attribute_at(source, parser.offset()) is Decline,
        decreases source.text.len() - parser.offset(), if more { 1nat } else { 0nat },
    {
        let ghost at = parser.offset();
        proof {
            parser.lemma_offset_bounded();
            lemma_attribute_bounds(source, at);
        }
        match attribute(parser) {
            None => {
                more = false;
            },
            Some(Err(error)) => {
                return Some(Err(error));
            },
            Some(Ok(read)) => {
                match find_attribute(&attributes, read.name.as_str()) {
                    Some(i) => {
                        assert(attribute_views(attributes@)[i as int].name == read@.name);
                        return Some(Err(read.position.error(duplicate(read.name.as_str()))));
                    },
                    None => {},
                }
                proof {
                    parser.lemma_offset_bounded();
                    lemma_attribute_views_push(attributes@, read);
                    lemma_whitespace_end_bounds(source.text, parser.offset());
                }
                attributes.push(read);
                parser.take_whitespace();
            },
        }
    }
    let self_closing = match (parser.peek(), parser.peek_at(1)) {
        (Some(first), Some(second)) => first == '/' && second == '>',
        _ => false,
    };
    if self_closing {
        parser.skip(2);
    } else {
        match parser.peek() {
            Some(c) => {
                if c != '>' {
                    return Some(Err(parser.position().error_str("expected '>' or '/>'")));
                }
            },
            None => {
                return Some(Err(parser.position().error_str("expected '>' or '/>'")));
            },
        }
        parser.skip(1);
    }
    Some(Ok(OpenTag { name: found, attributes, self_closing, position: parser.position() }))
}

/// Reads a closing tag, if `</` stands here, and returns its name.
pub fn close_tag<'a>(parser: &mut Parser<'a>) -> (result: Option<Result<String, Error<'a>>>)
    requires
        old(parser).wf(),
    ensures
        final(parser).wf(),
        final(parser).source() == old(parser).source(),
        match close_tag_at(old(parser).source(), old(parser).offset()) {
            Outcome::Decline => result is None && final(parser).offset() == old(parser).offset(),
            Outcome::Success { value, end } => {
                &&& result matches Some(Ok(found))
                &&& found@ == value
                &&& final(parser).offset() == end
            },
            Outcome::Failure { error } => {
                &&& result matches Some(Err(found))
                &&& found@ == error
            },
        },
{
    proof {
        parser.lemma_offset_bounded();
    }
    let here = match (parser.peek(), parser.peek_at(1)) {
        (Some(first), Some(second)) => first == '<' && second == '/',
        _ => false,
    };
    if !here {
        return None;
    }
    parser.skip(2);
    let found = match name(parser) {
        Some(found) => found,
        None => {
            return Some(Err(parser.position().error_str("expected element name")));
        },
    };
    match parser.peek() {
        Some(c) => {
            if c != '>' {
                return Some(Err(parser.position().error_str("expected '>'")));
            }
        },
        None => {
            return Some(Err(parser.position().error_str("expected '>'")));
        },
    }
    parser.skip(1);
    Some(Ok(found))
}

/// Whether `result`, with the reader left at `end`, is the content that
/// stands at `start`: nothing, with the reader at the end of the text, where
/// nothing but white space is left; else an element, or the text up to the
/// next `<`.
pub open spec fn content_produced(
    source: Source,
    start: nat,
    result: Option<Result<Content, Error>>,
    end: nat,
) -> bool {
    match content_at(source, start) {
        Outcome::Decline => result is None && end == source.text.len(),
        Outcome::Success { value, end: behind } => {
            &&& result matches Some(Ok(found))
            &&& found@ == value
            &&& end == behind
        },
        Outcome::Failure { error } => {
            &&& result matches Some(Err(found))
            &&& found@ == error
        },
    }
}

/// Reads a content: behind any white space, an element, or else the text up
/// to the next `<`. Returns nothing where nothing but white space is left.
#[verifier::loop_isolation(false)]
pub fn content<'a>(parser: &mut Parser<'a>) -> (result: Option<Result<Content<'a>, Error<'a>>>)
    requires
        old(parser).wf(),
    ensures
        final(parser).wf(),
        final(parser).source() == old(parser).source(),
        content_produced(
            old(parser).source(),
            old(parser).offset(),
            result,
            final(parser).offset(),
        ),
    decreases old(parser).source().text.len() - old(parser).offset(), 1nat,
{
    let ghost source = parser.source();
    let ghost at = parser.offset();
    proof {
        parser.lemma_offset_bounded();
        lemma_whitespace_end_bounds(source.text, at);
    }
    parser.take_whitespace();
    if parser.is_empty() {
        return None;
    }
    let ghost start = parser.offset();
    match element(parser) {
        Some(Ok(found)) => {
            return Some(Ok(Content::Element(found)));
        },
        Some(Err(error)) => {
            return Some(Err(error));
        },
        None => {},
    }
    let mut n: usize = 0;
    while text_ahead(parser, n)
        invariant
            parser.wf(),
            parser.source() == source,
            parser.offset() == start,
            start + n <= source.text.len(),
            find_char(source.text, (start + n) as nat, '<') == find_char(source.text, start, '<'),
        decreases source.text.len() - n,
    {
        n += 1;
    }
    Some(Ok(Content::Text(parser.take(n))))
}

/// Reads an element, if `<` stands here: an opening tag and, unless that tag
/// closes itself, the contents up to the closing tag, which must bear the
/// same name.
#[verifier::loop_isolation(false)]
pub fn element<'a>(parser: &mut Parser<'a>) -> (result: Option<Result<Element<'a>, Error<'a>>>)
    requires
        old(parser).wf(),
    ensures
        final(parser).wf(),
        final(parser).source() == old(parser).source(),
        produced(
            element_at(old(parser).source(), old(parser).offset()),
            old(parser).offset(),
            result,
            final(parser).offset(),
        ),
    decreases old(parser).source().text.len() - old(parser).offset(), 0nat,
{
    let ghost source = parser.source();
    let ghost at = parser.offset();
    proof {
        parser.lemma_offset_bounded();
        lemma_open_tag_bounds(source, at);
    }
    let tag = match open_tag(parser) {
        None => {
            return None;
        },
        Some(Err(error)) => {
            return Some(Err(error));
        },
        Some(Ok(tag)) => tag,
    };
    let mut contents: Vec<Content<'a>> = Vec::new();
    if tag.self_closing {
        assert(content_views(contents@) == Seq::<ContentView>::empty());
        return Some(
            Ok(
                Element {
                    name: tag.name,
                    attributes: tag.attributes,
                    contents,
                    position: tag.position,
                },
            ),
        );
    }
    assert(content_views(contents@) == Seq::<ContentView>::empty());
    loop
        invariant
            parser.wf(),
            parser.source() == source,
            source == old(parser).source(),
            at == old(parser).offset(),
            at < parser.offset() <= source.text.len(),
            element_at(source, at) == body_at(
                source,
                parser.offset(),
                tag@,
                content_views(contents@),
            ),
        decreases source.text.len() - parser.offset(),
    {
        let ghost from = parser.offset();
        proof {
            lemma_whitespace_end_bounds(source.text, from);
            lemma_whitespace_end_idempotent(source.text, from);
        }
        parser.take_whitespace();
        let ghost start = parser.offset();
        match close_tag(parser) {
            Some(Ok(closing)) => {
                if closing != tag.name {
                    return Some(Err(parser.position().error_str("mismatched closing tag")));
                }
                return Some(
                    Ok(
                        Element {
                            name: tag.name,
                            attributes: tag.attributes,
                            contents,
                            position: tag.position,
                        },
                    ),
                );
            },
            Some(Err(error)) => {
                return Some(Err(error));
            },
            None => {},
        }
        proof {
            lemma_content_bounds(source, start);
        }
        match content(parser) {
            Some(Err(error)) => {
                return Some(Err(error));
            },
            Some(Ok(found)) => {
                proof {
                    lemma_content_views_push(contents@, found);
                }
                contents.push(found);
            },
            None => {
                return Some(Err(parser.position().error_str("missing closing tag")));
            },
        }
    }
}

/// What can be read from a reader.
pub trait Parse<'a>: Sized {
    /// Whether `result`, with the reader left at `end`, is what stands in
    /// `source` at `start`.
    spec fn yields(source: Source, start: nat, result: Self, end: nat) -> bool;

    /// Reads a value of this type.
    fn parse(parser: &mut Parser<'a>) -> (result: Self)
        requires
            old(parser).wf(),
        ensures
            final(parser).wf(),
            final(parser).source() == old(parser).source(),
            Self::yields(
                old(parser).source(),
                old(parser).offset(),
                result,
                final(parser).offset(),
            ),
    ;
}

impl<'a> Parse<'a> for Option<Result<Content<'a>, Error<'a>>> {
    open spec fn yields(source: Source, start: nat, result: Self, end: nat) -> bool {
        content_produced(source, start, result, end)
    }

    fn parse(parser: &mut Parser<'a>) -> (result: Self) {
        content(parser)
    }
}

impl<'a> Parse<'a> for Option<Result<Element<'a>, Error<'a>>> {
    open spec fn yields(source: Source, start: nat, result: Self, end: nat) -> bool {
        produced(element_at(source, start), start, result, end)
    }

    fn parse(parser: &mut Parser<'a>) -> (result: Self) {
        element(parser)
    }
}

impl<'a> Parse<'a> for Option<Result<Attribute<'a>, Error<'a>>> {
    open spec fn yields(source: Source, start: nat, result: Self, end: nat) -> bool {
        produced(attribute_at(source, start), start, result, end)
    }

    fn parse(parser: &mut Parser<'a>) -> (result: Self) {
        attribute(parser)
    }
}

impl<'a> Parser<'a> {
    /// Reads a value of the type `T`.
    pub fn parse<T: Parse<'a>>(&mut self) -> (result: T)
        requires
            old(self).wf(),
        ensures
            final(self).wf(),
            final(self).source() == old(self).source(),
            T::yields(old(self).source(), old(self).offset(), result, final(self).offset()),
    {
        T::parse(self)
    }
}

} // verus!
