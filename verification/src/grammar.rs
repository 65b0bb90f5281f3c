//! The grammar, as functions of a source text and an offset into it.
//!
//! ```text
//! document  := Content*
//! Content   := Element | Text
//! Element   := '<' Name Attribute* ( '/>' | '>' Content* '</' Name '>' )
//! Attribute := Name [ '=' Quoted ]
//! Quoted    := '"' Char* '"' | '\'' Char* '\''      escapes: \\ \" \'
//! Name      := (Letter | '_') (Letter | Digit | '.' | '_' | '-')*
//!              and not starting with "xml" in any case
//! Text      := a run of characters without '<'
//! ```
//!
//! A production at an offset declines (the construct is not there), succeeds
//! with a value and the offset behind it, or fails with an error.

use vstd::prelude::*;
use crate::parser::{find_char, whitespace_end};
use crate::position::{ErrorView, PositionView, Source};
use crate::text::{is_letter_ignoring_case, is_name_char, is_name_start};
use crate::tree::{AttributeView, ContentView, ElementView, has_attribute};

verus! {

/// What a production yields.
pub enum Outcome<T> {
    /// The construct is not there.
    Decline,
    /// The construct is there: its value and the offset behind it.
    Success { value: T, end: nat },
    /// The construct is there and malformed.
    Failure { error: ErrorView },
}

/// An opening tag.
pub struct OpenTagView {
    pub name: Seq<char>,
    pub attributes: Seq<AttributeView>,
    pub self_closing: bool,
    pub position: PositionView,
}

/// The offset of the first character at or after `at` that cannot stand in
/// a name, or the length of `text` where there is none.
pub open spec fn name_end(text: Seq<char>, at: nat) -> nat
    decreases text.len() - at,
{
    if at < text.len() && is_name_char(text[at as int]) {
        name_end(text, at + 1)
    } else {
        at
    }
}

/// Whether the letters "xml", in any case, stand in `text` at `at`.
pub open spec fn at_xml(text: Seq<char>, at: nat) -> bool {
    &&& at + 3 <= text.len()
    &&& is_letter_ignoring_case(text[at as int], 'x')
    &&& is_letter_ignoring_case(text[at + 1 as int], 'm')
    &&& is_letter_ignoring_case(text[at + 2 as int], 'l')
}

/// Whether the characters `first` and `second` stand in `text` at `at`.
pub open spec fn at_pair(text: Seq<char>, at: nat, first: char, second: char) -> bool {
    at + 2 <= text.len() && text[at as int] == first && text[at + 1 as int] == second
}

/// Name: the offset behind the name that stands at `at`, if one does.
pub open spec fn name_at(text: Seq<char>, at: nat) -> Option<nat> {
    if at < text.len() && is_name_start(text[at as int]) && !at_xml(text, at) {
        Some(name_end(text, at))
    } else {
        None
    }
}

/// Whether `c` may follow a backslash in a quoted value.
pub open spec fn is_escapable(c: char) -> bool {
    c == '\\' || c == '\'' || c == '"'
}

/// The rest of a quoted value whose opening quote is `quote`, read from `at`:
/// the characters up to the closing quote, escapes resolved, and the offset
/// behind that quote. None where the text ends first or a backslash stands
/// before anything but a backslash or a quote.
pub open spec fn quoted_rest(text: Seq<char>, at: nat, quote: char) -> Option<(Seq<char>, nat)>
    decreases text.len() - at,
{
    if at >= text.len() {
        None
    } else if text[at as int] == '\\' {
        if at + 1 < text.len() && is_escapable(text[at + 1 as int]) {
            match quoted_rest(text, at + 2, quote) {
                Some((value, end)) => Some((seq![text[at + 1 as int]] + value, end)),
                None => None,
            }
        } else {
            None
        }
    } else if text[at as int] == quote {
        Some((Seq::empty(), at + 1))
    } else {
        match quoted_rest(text, at + 1, quote) {
            Some((value, end)) => Some((seq![text[at as int]] + value, end)),
            None => None,
        }
    }
}

/// AttributeValue: the quoted value that stands at `at`, if one does, and
/// the offset behind it.
pub open spec fn value_at(text: Seq<char>, at: nat) -> Option<(Seq<char>, nat)> {
    if at < text.len() && (text[at as int] == '"' || text[at as int] == '\'') {
        quoted_rest(text, at + 1, text[at as int])
    } else {
        None
    }
}

/// Attribute: a name, alone or with `=` and a quoted value behind it. Its
/// position is the one behind it.
pub open spec fn attribute_at(source: Source, at: nat) -> Outcome<AttributeView> {
    let text = source.text;
    match name_at(text, at) {
        None => Outcome::Decline,
        Some(end) => {
            let name = text.subrange(at as int, end as int);
            if end < text.len() && text[end as int] == '=' {
                match value_at(text, end + 1) {
                    Some((value, behind)) => Outcome::Success {
                        value: AttributeView {
                            name,
                            value: Some(value),
                            position: source.position(behind),
                        },
                        end: behind,
                    },
                    None => Outcome::Failure {
                        error: source.error(end + 1, "expected attribute value"@),
                    },
                }
            } else {
                Outcome::Success {
                    value: AttributeView { name, value: None, position: source.position(end) },
                    end,
                }
            }
        },
    }
}

/// The message for a second attribute named `name`.
pub open spec fn duplicate_message(name: Seq<char>) -> Seq<char> {
    "found duplicate '"@ + name + "' attribute"@
}

/// The attributes of the opening tag of an element `name` from `at` on, and
/// the end of that tag; `attributes` are those read before `at`. White space
/// may follow each attribute. An attribute whose name was read before is an
/// error at that attribute's position.
pub open spec fn attributes_at(
    source: Source,
    at: nat,
    name: Seq<char>,
    attributes: Seq<AttributeView>,
) -> Outcome<OpenTagView>
    decreases source.text.len() - at,
{
    let text = source.text;
    match attribute_at(source, at) {
        Outcome::Failure { error } => Outcome::Failure { error },
        Outcome::Success { value, end } => {
            if has_attribute(attributes, value.name) {
                Outcome::Failure {
                    error: ErrorView {
                        message: duplicate_message(value.name),
                        position: value.position,
                    },
                }
            } else {
                proof {
                    lemma_attribute_bounds(source, at);
                    lemma_whitespace_end_bounds(text, end);
                }
                attributes_at(source, whitespace_end(text, end), name, attributes.push(value))
            }
        },
        Outcome::Decline => {
            if at_pair(text, at, '/', '>') {
                Outcome::Success {
                    value: OpenTagView {
                        name,
                        attributes,
                        self_closing: true,
                        position: source.position(at + 2),
                    },
                    end: at + 2,
                }
            } else if at < text.len() && text[at as int] == '>' {
                Outcome::Success {
                    value: OpenTagView {
                        name,
                        attributes,
                        self_closing: false,
                        position: source.position(at + 1),
                    },
                    end: at + 1,
                }
            } else {
                Outcome::Failure { error: source.error(at, "expected '>' or '/>'"@) }
            }
        },
    }
}

/// OpenTag: `<`, a name, attributes, and `>` or `/>`. Its position is the
/// one behind it.
pub open spec fn open_tag_at(source: Source, at: nat) -> Outcome<OpenTagView> {
    let text = source.text;
    if at < text.len() && text[at as int] == '<' {
        match name_at(text, at + 1) {
            None => Outcome::Failure { error: source.error(at + 1, "expected element name"@) },
            Some(end) => attributes_at(
                source,
                whitespace_end(text, end),
                text.subrange(at + 1 as int, end as int),
                Seq::empty(),
            ),
        }
    } else {
        Outcome::Decline
    }
}

/// CloseTag: `</`, a name and `>`. Its value is the name.
pub open spec fn close_tag_at(source: Source, at: nat) -> Outcome<Seq<char>> {
    let text = source.text;
    if at_pair(text, at, '<', '/') {
        match name_at(text, at + 2) {
            None => Outcome::Failure { error: source.error(at + 2, "expected element name"@) },
            Some(end) => {
                if end < text.len() && text[end as int] == '>' {
                    Outcome::Success { value: text.subrange(at + 2 as int, end as int), end: end + 1 }
                } else {
                    Outcome::Failure { error: source.error(end, "expected '>'"@) }
                }
            },
        }
    } else {
        Outcome::Decline
    }
}

/// Content: behind any white space, an element, or else the text up to the
/// next `<`. It declines where nothing but white space is left.
pub open spec fn content_at(source: Source, at: nat) -> Outcome<ContentView>
    decreases source.text.len() - at, 1nat,
{
    let text = source.text;
    let start = whitespace_end(text, at);
    if start < text.len() {
        proof {
            lemma_whitespace_end_bounds(text, at);
        }
        match element_at(source, start) {
            Outcome::Success { value, end } => Outcome::Success {
                value: ContentView::Element(value),
                end,
            },
            Outcome::Failure { error } => Outcome::Failure { error },
            Outcome::Decline => {
                let end = find_char(text, start, '<');
                Outcome::Success {
                    value: ContentView::Text(text.subrange(start as int, end as int)),
                    end,
                }
            },
        }
    } else {
        Outcome::Decline
    }
}

/// Element: an opening tag and, unless that tag closes itself, the contents
/// up to the closing tag of the same name.
pub open spec fn element_at(source: Source, at: nat) -> Outcome<ElementView>
    decreases source.text.len() - at, 0nat,
{
    match open_tag_at(source, at) {
        Outcome::Decline => Outcome::Decline,
        Outcome::Failure { error } => Outcome::Failure { error },
        Outcome::Success { value: tag, end } => {
            if tag.self_closing {
                Outcome::Success {
                    value: ElementView {
                        name: tag.name,
                        attributes: tag.attributes,
                        contents: Seq::empty(),
                        position: tag.position,
                    },
                    end,
                }
            } else {
                proof {
                    lemma_open_tag_bounds(source, at);
                }
                body_at(source, end, tag, Seq::empty())
            }
        },
    }
}

/// The contents of the element opened by `tag` from `at` on, and its closing
/// tag; `contents` are those read before `at`. White space before a closing
/// tag or a content is passed over.
pub open spec fn body_at(
    source: Source,
    at: nat,
    tag: OpenTagView,
    contents: Seq<ContentView>,
) -> Outcome<ElementView>
    decreases source.text.len() - at, 2nat,
{
    let text = source.text;
    let start = whitespace_end(text, at);
    match close_tag_at(source, start) {
        Outcome::Failure { error } => Outcome::Failure { error },
        Outcome::Success { value: name, end } => {
            if name == tag.name {
                Outcome::Success {
                    value: ElementView {
                        name: tag.name,
                        attributes: tag.attributes,
                        contents,
                        position: tag.position,
                    },
                    end,
                }
            } else {
                Outcome::Failure { error: source.error(end, "mismatched closing tag"@) }
            }
        },
        Outcome::Decline => {
            proof {
                if at <= text.len() {
                    lemma_whitespace_end_bounds(text, at);
                }
            }
            match content_at(source, start) {
                Outcome::Failure { error } => Outcome::Failure { error },
                Outcome::Success { value, end } if start < end <= text.len() => body_at(
                    source,
                    end,
                    tag,
                    contents.push(value),
                ),
                // Nothing is left (a content is never empty).
                _ => Outcome::Failure { error: source.error(start, "missing closing tag"@) },
            }
        },
    }
}

/// White space that starts within the text ends within the text, at or
/// behind where it starts.
pub proof fn lemma_whitespace_end_bounds(text: Seq<char>, at: nat)
    requires
        at <= text.len(),
    ensures
        at <= whitespace_end(text, at) <= text.len(),
    decreases text.len() - at,
{
    if at < text.len() && crate::text::is_whitespace(text[at as int]) {
        lemma_whitespace_end_bounds(text, at + 1);
    }
}

/// A run of name characters that starts within the text ends within the
/// text, at or behind where it starts.
pub proof fn lemma_name_end_bounds(text: Seq<char>, at: nat)
    requires
        at <= text.len(),
    ensures
        at <= name_end(text, at) <= text.len(),
    decreases text.len() - at,
{
    if at < text.len() && is_name_char(text[at as int]) {
        lemma_name_end_bounds(text, at + 1);
    }
}

/// The search for a character from within the text ends within the text, at
/// or behind where it starts.
pub proof fn lemma_find_char_bounds(text: Seq<char>, at: nat, c: char)
    requires
        at <= text.len(),
    ensures
        at <= find_char(text, at, c) <= text.len(),
    decreases text.len() - at,
{
    if at < text.len() && text[at as int] != c {
        lemma_find_char_bounds(text, at + 1, c);
    }
}

/// A name is not empty and ends within the text.
pub proof fn lemma_name_bounds(text: Seq<char>, at: nat)
    requires
        name_at(text, at) is Some,
    ensures
        at < name_at(text, at)->0 <= text.len(),
{
    lemma_name_end_bounds(text, at + 1);
}

/// The rest of a quoted value is not empty and ends within the text.
pub proof fn lemma_quoted_rest_bounds(text: Seq<char>, at: nat, quote: char)
    ensures
        quoted_rest(text, at, quote) matches Some((_, end)) ==> at < end <= text.len(),
    decreases text.len() - at,
{
    if at < text.len() {
        if text[at as int] == '\\' {
            if at + 1 < text.len() {
                lemma_quoted_rest_bounds(text, at + 2, quote);
            }
        } else if text[at as int] != quote {
            lemma_quoted_rest_bounds(text, at + 1, quote);
        }
    }
}

/// An attribute is not empty and ends within the text.
pub proof fn lemma_attribute_bounds(source: Source, at: nat)
    ensures
        attribute_at(source, at) matches Outcome::Success { end, .. } ==> at < end
            <= source.text.len(),
{
    let text = source.text;
    if name_at(text, at) is Some {
        lemma_name_bounds(text, at);
        let end = name_at(text, at)->0;
        if end < text.len() && text[end as int] == '=' && end + 1 < text.len() {
            lemma_quoted_rest_bounds(text, end + 2, text[end + 1 as int]);
        }
    }
}

/// What follows the name in an opening tag never declines; it is not empty
/// and ends within the text.
pub proof fn lemma_attributes_bounds(
    source: Source,
    at: nat,
    name: Seq<char>,
    attributes: Seq<AttributeView>,
)
    ensures
        attributes_at(source, at, name, attributes) !is Decline,
        attributes_at(source, at, name, attributes) matches Outcome::Success { end, .. } ==> at
            < end <= source.text.len(),
    decreases source.text.len() - at,
{
    let text = source.text;
    match attribute_at(source, at) {
        Outcome::Success { value, end } => {
            if !has_attribute(attributes, value.name) {
                lemma_attribute_bounds(source, at);
                lemma_whitespace_end_bounds(text, end);
                lemma_attributes_bounds(
                    source,
                    whitespace_end(text, end),
                    name,
                    attributes.push(value),
                );
            }
        },
        _ => {},
    }
}

/// An opening tag declines where no `<` stands; it is not empty and ends
/// within the text.
pub proof fn lemma_open_tag_bounds(source: Source, at: nat)
    ensures
        open_tag_at(source, at) is Decline <==> !(at < source.text.len() && source.text[at as int]
            == '<'),
        open_tag_at(source, at) matches Outcome::Success { end, .. } ==> at < end
            <= source.text.len(),
{
    let text = source.text;
    if at < text.len() && text[at as int] == '<' && name_at(text, at + 1) is Some {
        lemma_name_bounds(text, at + 1);
        let end = name_at(text, at + 1)->0;
        lemma_whitespace_end_bounds(text, end);
        lemma_attributes_bounds(
            source,
            whitespace_end(text, end),
            text.subrange(at + 1 as int, end as int),
            Seq::empty(),
        );
    }
}

/// A closing tag is not empty and ends within the text.
pub proof fn lemma_close_tag_bounds(source: Source, at: nat)
    ensures
        close_tag_at(source, at) matches Outcome::Success { end, .. } ==> at < end
            <= source.text.len(),
{
    if close_tag_at(source, at) is Success {
        lemma_name_bounds(source.text, at + 2);
    }
}

/// A content declines where nothing but white space is left; it is not empty
/// and ends within the text.
pub proof fn lemma_content_bounds(source: Source, at: nat)
    requires
        at <= source.text.len(),
    ensures
        content_at(source, at) is Decline <==> whitespace_end(source.text, at)
            == source.text.len(),
        content_at(source, at) matches Outcome::Success { end, .. } ==> whitespace_end(
            source.text,
            at,
        ) < end <= source.text.len(),
    decreases source.text.len() - at, 1nat,
{
    let text = source.text;
    let start = whitespace_end(text, at);
    lemma_whitespace_end_bounds(text, at);
    if start < text.len() {
        lemma_element_bounds(source, start);
        if element_at(source, start) is Decline {
            lemma_find_char_bounds(text, start + 1, '<');
        }
    }
}

/// An element declines where no `<` stands; it is not empty and ends within
/// the text.
pub proof fn lemma_element_bounds(source: Source, at: nat)
    requires
        at <= source.text.len(),
    ensures
        element_at(source, at) is Decline <==> !(at < source.text.len() && source.text[at as int]
            == '<'),
        element_at(source, at) matches Outcome::Success { end, .. } ==> at < end
            <= source.text.len(),
    decreases source.text.len() - at, 0nat,
{
    lemma_open_tag_bounds(source, at);
    match open_tag_at(source, at) {
        Outcome::Success { value: tag, end } => {
            if !tag.self_closing {
                lemma_body_bounds(source, end, tag, Seq::empty());
            }
        },
        _ => {},
    }
}

/// What follows an opening tag never declines; it is not empty and ends
/// within the text.
pub proof fn lemma_body_bounds(
    source: Source,
    at: nat,
    tag: OpenTagView,
    contents: Seq<ContentView>,
)
    requires
        at <= source.text.len(),
    ensures
        body_at(source, at, tag, contents) !is Decline,
        body_at(source, at, tag, contents) matches Outcome::Success { end, .. } ==> at < end
            <= source.text.len(),
    decreases source.text.len() - at, 2nat,
{
    let text = source.text;
    let start = whitespace_end(text, at);
    lemma_whitespace_end_bounds(text, at);
    lemma_close_tag_bounds(source, start);
    if close_tag_at(source, start) is Decline {
        lemma_whitespace_end_idempotent(text, at);
        lemma_content_bounds(source, start);
        match content_at(source, start) {
            Outcome::Success { value, end } => {
                lemma_body_bounds(source, end, tag, contents.push(value));
            },
            _ => {},
        }
    }
}

/// White space cannot be passed over twice.
pub proof fn lemma_whitespace_end_idempotent(text: Seq<char>, at: nat)
    ensures
        whitespace_end(text, whitespace_end(text, at)) == whitespace_end(text, at),
    decreases text.len() - at,
{
    if at < text.len() && crate::text::is_whitespace(text[at as int]) {
        lemma_whitespace_end_idempotent(text, at + 1);
    }
}

/// An element whose opening tag closes itself holds nothing.
pub proof fn lemma_self_closing_is_empty(source: Source, at: nat)
    requires
        open_tag_at(source, at) matches Outcome::Success { value, .. } && value.self_closing,
    ensures
        element_at(source, at) matches Outcome::Success { value, .. } && value.contents.len()
            == 0,
{
}

/// Whether `name` is a name: it is not empty, starts with a letter or an
/// underscore and not with the letters "xml" in any case, and holds nothing
/// but letters, digits, periods, underscores and hyphens.
pub open spec fn is_name(name: Seq<char>) -> bool {
    &&& name.len() > 0
    &&& is_name_start(name[0])
    &&& !at_xml(name, 0)
    &&& forall|i: int| 0 <= i < name.len() ==> is_name_char(#[trigger] name[i])
}

/// A run of name characters ends behind `count` characters where those are
/// name characters and what follows them is none.
pub proof fn lemma_name_end_exact(text: Seq<char>, at: nat, count: nat)
    requires
        at + count <= text.len(),
        forall|i: int| at <= i < at + count ==> is_name_char(#[trigger] text[i]),
        at + count == text.len() || !is_name_char(text[(at + count) as int]),
    ensures
        name_end(text, at) == at + count,
    decreases count,
{
    if count > 0 {
        assert(is_name_char(text[at as int]));
        lemma_name_end_exact(text, at + 1, (count - 1) as nat);
    }
}

/// The characters that a run of name characters passes over are name
/// characters, and what follows them is none.
pub proof fn lemma_name_end_maximal(text: Seq<char>, at: nat)
    requires
        at <= text.len(),
    ensures
        forall|i: int| at <= i < name_end(text, at) ==> is_name_char(#[trigger] text[i]),
        name_end(text, at) == text.len() || !is_name_char(text[name_end(text, at) as int]),
    decreases text.len() - at,
{
    lemma_name_end_bounds(text, at);
    if at < text.len() && is_name_char(text[at as int]) {
        lemma_name_end_maximal(text, at + 1);
    }
}

/// Where a name stands in a text, and what follows it cannot stand in a
/// name, the name production reads exactly that name.
pub proof fn lemma_name_accepted(text: Seq<char>, at: nat, name: Seq<char>)
    requires
        is_name(name),
        at + name.len() <= text.len(),
        text.subrange(at as int, (at + name.len()) as int) == name,
        at + name.len() == text.len() || !is_name_char(text[(at + name.len()) as int]),
    ensures
        name_at(text, at) == Some(at + name.len()),
{
    assert forall|i: int| at <= i < at + name.len() implies is_name_char(#[trigger] text[i]) by {
        assert(text[i] == name[i - at]);
    }
    assert(text[at as int] == name[0]);
    if at_xml(text, at) {
        if name.len() >= 3 {
            assert(text[at + 1 as int] == name[1]);
            assert(text[at + 2 as int] == name[2]);
            assert(at_xml(name, 0));
        } else if name.len() == 2 {
            crate::text::lemma_letter_ignoring_case(text[at + 2 as int], 'l');
        } else {
            crate::text::lemma_letter_ignoring_case(text[at + 1 as int], 'm');
        }
    }
    lemma_name_end_exact(text, at, name.len());
}

/// Where the text has ended, or a character stands that cannot start a
/// name, such as a digit or a mark other than an underscore, or the letters
/// "xml" stand in any case, the name production declines.
pub proof fn lemma_name_declined(text: Seq<char>, at: nat)
    requires
        at >= text.len() || !is_name_start(text[at as int]) || at_xml(text, at),
    ensures
        name_at(text, at) is None,
{
}

/// What the name production reads is a name, and it is the longest one
/// that stands there.
pub proof fn lemma_name_read(text: Seq<char>, at: nat)
    requires
        name_at(text, at) is Some,
    ensures
        at < name_at(text, at)->0 <= text.len(),
        is_name(text.subrange(at as int, name_at(text, at)->0 as int)),
        name_at(text, at)->0 == text.len() || !is_name_char(text[name_at(text, at)->0 as int]),
{
    let end = name_at(text, at)->0;
    lemma_name_bounds(text, at);
    lemma_name_end_maximal(text, at);
    let name = text.subrange(at as int, end as int);
    assert forall|i: int| 0 <= i < name.len() implies is_name_char(#[trigger] name[i]) by {
        assert(name[i] == text[at + i]);
    }
    if at_xml(name, 0) {
        assert(name[0] == text[at as int]);
        assert(name[1] == text[at + 1 as int]);
        assert(name[2] == text[at + 2 as int]);
    }
}

} // verus!
