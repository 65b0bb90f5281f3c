//! Whole documents: the element that a document consists of.

use vstd::prelude::*;
use crate::extract::{gives, no_child_message};
use crate::grammar::{Outcome, content_at};
use crate::parser::Parser;
use crate::position::{Error, ErrorView, Source};
use crate::text::str_equal;
use crate::tree::{Content, ContentView, Element, ElementView};

verus! {

/// The element `name` that the document `source` starts with. A document
/// that is malformed gives the error of its first content; one that is
/// empty, or starts with a text or with an element of another name, is an
/// error at its start.
pub open spec fn root_of(source: Source, name: Seq<char>) -> Result<ElementView, ErrorView> {
    let other = Err(source.error(0, no_child_message(name)));
    match content_at(source, 0) {
        Outcome::Failure { error } => Err(error),
        Outcome::Success { value, .. } => match value {
            ContentView::Element(element) => if element.name == name {
                Ok(element)
            } else {
                other
            },
            ContentView::Text(_) => other,
        },
        Outcome::Decline => other,
    }
}

/// The element `name` that the document `src`, from the file `path`, starts
/// with.
pub fn root<'a>(path: &'a str, src: &'a str, name: &str) -> (result: Result<
    Element<'a>,
    Error<'a>,
>)
    ensures
        gives(root_of(Source { path: path@, text: src@ }, name@), result),
{
    let mut parser = Parser::new(path, src);
    let start = parser.position();
    match parser.parse::<Option<Result<Content<'a>, Error<'a>>>>() {
        Some(Err(error)) => Err(error),
        Some(Ok(Content::Element(element))) => {
            if str_equal(element.name.as_str(), name) {
                Ok(element)
            } else {
                Err(start.error(crate::extract::message_about("expected '", name, "' element")))
            }
        },
        _ => Err(start.error(crate::extract::message_about("expected '", name, "' element"))),
    }
}

} // verus!
