//! Writing a tree back as markup, and why reading that markup gives the
//! tree again.

use vstd::prelude::*;
use crate::grammar::{
    Outcome, OpenTagView, attribute_at, attributes_at, body_at, close_tag_at, content_at,
    element_at, is_name, name_at, open_tag_at, quoted_rest, lemma_attribute_bounds,
    lemma_content_bounds, lemma_element_bounds, lemma_name_accepted, lemma_name_read,
    lemma_open_tag_bounds, lemma_whitespace_end_bounds, lemma_whitespace_end_idempotent,
};
use crate::parser::{at_literal, find_char, whitespace_end};
use crate::position::Source;
use crate::text::{is_name_char, is_name_start, is_whitespace};
use crate::tree::{
    Attribute, AttributeView, Content, ContentView, Element, ElementView, attribute_views,
    content_views, distinct_names, has_attribute, lemma_content_views, lemma_element_view,
};
use vstd::string::StringExecFns;

verus! {

/// `value` as it is written between double quotes: with a backslash before
/// each backslash and each double quote.
pub open spec fn escaped(value: Seq<char>) -> Seq<char>
    decreases value.len(),
{
    if value.len() == 0 {
        Seq::empty()
    } else if value[0] == '\\' || value[0] == '"' {
        seq!['\\', value[0]] + escaped(value.drop_first())
    } else {
        seq![value[0]] + escaped(value.drop_first())
    }
}

/// An attribute as markup: its name, and its value between double quotes
/// behind `=` where it has one.
pub open spec fn attribute_markup(attribute: AttributeView) -> Seq<char> {
    match attribute.value {
        Some(value) => attribute.name + seq!['=', '"'] + escaped(value) + seq!['"'],
        None => attribute.name,
    }
}

/// Attributes as markup: each with a space before it.
pub open spec fn attributes_markup(attributes: Seq<AttributeView>) -> Seq<char>
    decreases attributes.len(),
{
    if attributes.len() == 0 {
        Seq::empty()
    } else {
        seq![' '] + attribute_markup(attributes[0]) + attributes_markup(attributes.drop_first())
    }
}

/// The end of an opening tag: `/>` where it closes itself, else `>`.
pub open spec fn tag_end(self_closing: bool) -> Seq<char> {
    if self_closing {
        seq!['/', '>']
    } else {
        seq!['>']
    }
}

/// The closing tag of an element `name`.
pub open spec fn closing_markup(name: Seq<char>) -> Seq<char> {
    seq!['<', '/'] + name + seq!['>']
}

/// An element as markup: a tag that closes itself where the element holds
/// nothing, else an opening tag, the contents and a closing tag.
pub open spec fn element_markup(element: ElementView) -> Seq<char>
    decreases element, 0nat,
{
    seq!['<'] + element.name + attributes_markup(element.attributes) + tag_end(
        element.contents.len() == 0,
    ) + if element.contents.len() == 0 {
        Seq::empty()
    } else {
        contents_markup(element.contents, 0) + closing_markup(element.name)
    }
}

/// A content as markup: a text as it is, an element as markup.
pub open spec fn content_markup(content: ContentView) -> Seq<char>
    decreases content, 0nat,
{
    match content {
        ContentView::Element(element) => element_markup(element),
        ContentView::Text(text) => text,
    }
}

/// The contents from index `from` on as markup, one behind the other.
pub open spec fn contents_markup(contents: Seq<ContentView>, from: nat) -> Seq<char>
    decreases contents, contents.len() - from,
{
    if from >= contents.len() {
        Seq::empty()
    } else {
        content_markup(contents[from as int]) + contents_markup(contents, from + 1)
    }
}

/// Whether a text comes back from markup as it is: it is not empty, does
/// not start with white space, and holds no `<`.
pub open spec fn is_plain_text(text: Seq<char>) -> bool {
    &&& text.len() > 0
    &&& !is_whitespace(text[0])
    &&& forall|i: int| 0 <= i < text.len() ==> #[trigger] text[i] != '<'
}

/// Whether each of `attributes` bears a name, and no two the same one.
pub open spec fn well_named(attributes: Seq<AttributeView>) -> bool {
    &&& distinct_names(attributes)
    &&& forall|i: int| 0 <= i < attributes.len() ==> is_name(#[trigger] attributes[i].name)
}

/// Whether `contents` are ones that reading can give: texts are not empty,
/// hold no `<` and start with no white space, no text follows a text, and
/// the elements are ones that reading can give.
pub open spec fn contents_readable(contents: Seq<ContentView>) -> bool
    decreases contents,
{
    forall|i: int|
        0 <= i < contents.len() ==> match #[trigger] contents[i] {
            ContentView::Text(text) => {
                &&& is_plain_text(text)
                &&& i + 1 < contents.len() ==> contents[i + 1] is Element
            },
            ContentView::Element(child) => is_readable(child),
        }
}

/// Whether a tree is one that reading can give: names are names, no
/// element has two attributes of one name, texts are not empty, hold no `<`
/// and start with no white space, and no text follows a text.
pub open spec fn is_readable(element: ElementView) -> bool
    decreases element,
{
    &&& is_name(element.name)
    &&& well_named(element.attributes)
    &&& contents_readable(element.contents)
}

/// Whether two lists of attributes bear the same names and values in the
/// same order.
pub open spec fn attributes_alike(first: Seq<AttributeView>, second: Seq<AttributeView>) -> bool {
    &&& first.len() == second.len()
    &&& forall|i: int|
        0 <= i < first.len() ==> {
            &&& (#[trigger] first[i]).name == second[i].name
            &&& first[i].value == second[i].value
        }
}

/// Whether two contents are the same but for their positions.
pub open spec fn content_alike(first: ContentView, second: ContentView) -> bool
    decreases first,
{
    match first {
        ContentView::Text(text) => second == ContentView::Text(text),
        ContentView::Element(child) => {
            &&& second matches ContentView::Element(other)
            &&& alike(child, other)
        },
    }
}

/// Whether two trees are the same but for their positions: the same name,
/// the same attributes, and contents that are the same but for their
/// positions, in the same order.
pub open spec fn alike(first: ElementView, second: ElementView) -> bool
    decreases first,
{
    &&& first.name == second.name
    &&& attributes_alike(first.attributes, second.attributes)
    &&& first.contents.len() == second.contents.len()
    &&& forall|i: int|
        0 <= i < first.contents.len() ==> content_alike(
            #[trigger] first.contents[i],
            second.contents[i],
        )
}

/// Where two texts stand one behind the other, each of them stands.
pub proof fn lemma_literal_split(text: Seq<char>, at: nat, first: Seq<char>, second: Seq<char>)
    requires
        at_literal(text, at, first + second),
    ensures
        at_literal(text, at, first),
        at_literal(text, at + first.len(), second),
{
    let both = first + second;
    let found = text.subrange(at as int, (at + both.len()) as int);
    assert(text.subrange(at as int, (at + first.len()) as int) =~= first) by {
        assert forall|i: int| 0 <= i < first.len() implies text[at + i] == first[i] by {
            assert(found[i] == both[i]);
        }
    }
    assert(text.subrange((at + first.len()) as int, (at + first.len() + second.len()) as int)
        =~= second) by {
        assert forall|i: int| 0 <= i < second.len() implies text[at + first.len() + i]
            == second[i] by {
            assert(found[first.len() + i] == both[first.len() + i]);
        }
    }
}

/// Where a text stands, each of its characters stands.
pub proof fn lemma_literal_index(text: Seq<char>, at: nat, literal: Seq<char>, i: int)
    requires
        at_literal(text, at, literal),
        0 <= i < literal.len(),
    ensures
        text[at + i] == literal[i],
{
    assert(text.subrange(at as int, (at + literal.len()) as int)[i] == literal[i]);
}

/// A value that was written between double quotes is read as it was.
pub proof fn lemma_quoted_read(text: Seq<char>, at: nat, value: Seq<char>)
    requires
        at_literal(text, at, escaped(value) + seq!['"']),
    ensures
        quoted_rest(text, at, '"') == Some((value, at + escaped(value).len() + 1)),
    decreases value.len(),
{
    let written = escaped(value) + seq!['"'];
    if value.len() == 0 {
        lemma_literal_index(text, at, written, 0);
    } else {
        let rest = value.drop_first();
        let head = if value[0] == '\\' || value[0] == '"' {
            seq!['\\', value[0]]
        } else {
            seq![value[0]]
        };
        assert(written == head + (escaped(rest) + seq!['"']));
        lemma_literal_split(text, at, head, escaped(rest) + seq!['"']);
        lemma_quoted_read(text, at + head.len(), rest);
        lemma_literal_index(text, at, head, 0);
        if head.len() == 2 {
            lemma_literal_index(text, at, head, 1);
        }
        assert(seq![value[0]] + rest == value);
    }
}

/// An attribute that was written, with a space, a `/` or a `>` behind it,
/// is read as it was.
pub proof fn lemma_attribute_read(source: Source, at: nat, attribute: AttributeView)
    requires
        is_name(attribute.name),
        at_literal(source.text, at, attribute_markup(attribute)),
        at + attribute_markup(attribute).len() < source.text.len(),
        ({
            let next = source.text[(at + attribute_markup(attribute).len()) as int];
            next == ' ' || next == '/' || next == '>'
        }),
    ensures
        attribute_at(source, at) == (Outcome::Success {
            value: AttributeView {
                name: attribute.name,
                value: attribute.value,
                position: source.position(at + attribute_markup(attribute).len()),
            },
            end: at + attribute_markup(attribute).len(),
        }),
{
    let text = source.text;
    let name = attribute.name;
    match attribute.value {
        Some(value) => {
            let behind = seq!['=', '"'] + escaped(value) + seq!['"'];
            assert(attribute_markup(attribute) == name + behind);
            lemma_literal_split(text, at, name, behind);
            lemma_literal_index(text, at + name.len(), behind, 0);
            lemma_literal_index(text, at + name.len(), behind, 1);
            lemma_name_accepted(text, at, name);
            assert(behind == seq!['=', '"'] + (escaped(value) + seq!['"']));
            lemma_literal_split(
                text,
                at + name.len(),
                seq!['=', '"'],
                escaped(value) + seq!['"'],
            );
            lemma_quoted_read(text, at + name.len() + 2, value);
        },
        None => {
            lemma_name_accepted(text, at, name);
        },
    }
}

/// The characters that a tag may go on with behind its name or behind an
/// attribute are no white space and cannot stand in a name, but for the
/// space.
pub proof fn lemma_marks()
    ensures
        is_whitespace(' '),
        !is_whitespace('/') && !is_whitespace('>') && !is_whitespace('<'),
        !is_name_char(' ') && !is_name_char('/') && !is_name_char('>') && !is_name_char('=')
            && !is_name_char('<'),
        forall|c: char| is_name_start(c) ==> is_name_char(c) && !is_whitespace(c) && c != '/',
{
    assert(' ' as u32 == 0x20 && '/' as u32 == 0x2f && '>' as u32 == 0x3e && '<' as u32 == 0x3c);
    assert forall|c: char| is_name_start(c) implies is_name_char(c) && !is_whitespace(c) && c
        != '/' by {
        assert('a' as u32 == 97 && 'z' as u32 == 122 && 'A' as u32 == 65 && 'Z' as u32 == 90
            && '_' as u32 == 95);
    }
}

/// Whether an opening tag is the one of an element `name` with `attributes`
/// that ends at `end`.
pub open spec fn is_tag_of(
    tag: OpenTagView,
    name: Seq<char>,
    attributes: Seq<AttributeView>,
    self_closing: bool,
) -> bool {
    &&& tag.name == name
    &&& attributes_alike(tag.attributes, attributes)
    &&& tag.self_closing == self_closing
}

/// Attributes that were written, with the end of the tag behind them, are
/// read as they were.
pub proof fn lemma_attributes_read(
    source: Source,
    at: nat,
    name: Seq<char>,
    before: Seq<AttributeView>,
    rest: Seq<AttributeView>,
    self_closing: bool,
)
    requires
        well_named(before + rest),
        at_literal(source.text, at, attributes_markup(rest) + tag_end(self_closing)),
    ensures
        attributes_at(source, whitespace_end(source.text, at), name, before) matches Outcome::Success {
            value,
            end,
        } && is_tag_of(value, name, before + rest, self_closing) && end == at + attributes_markup(
            rest,
        ).len() + tag_end(self_closing).len(),
    decreases rest.len(),
{
    let text = source.text;
    lemma_marks();
    let closer = tag_end(self_closing);
    if rest.len() == 0 {
        assert(attributes_markup(rest) + closer == closer);
        lemma_literal_index(text, at, closer, 0);
        if self_closing {
            lemma_literal_index(text, at, closer, 1);
        }
        assert(whitespace_end(text, at) == at);
        assert(before + rest == before);
    } else {
        let first = rest[0];
        let others = rest.drop_first();
        let written = attribute_markup(first);
        let behind = attributes_markup(others) + closer;
        assert(attributes_markup(rest) + closer == seq![' '] + (written + behind));
        lemma_literal_split(text, at, seq![' '], written + behind);
        lemma_literal_index(text, at, seq![' '], 0);
        lemma_literal_split(text, at + 1, written, behind);
        assert((before + rest)[before.len() as int] == first);
        assert(is_name(first.name));
        // The attribute starts with its name, so white space ends before it.
        assert(written[0] == first.name[0]) by {
            match first.value {
                Some(value) => {
                    assert(written == first.name + (seq!['=', '"'] + escaped(value) + seq!['"']));
                },
                None => {},
            }
        }
        lemma_literal_index(text, at + 1, written, 0);
        assert(whitespace_end(text, at + 1) == at + 1);
        assert(whitespace_end(text, at) == at + 1);
        // What stands behind the attribute.
        assert(behind.len() > 0 && (behind[0] == ' ' || behind[0] == '/' || behind[0] == '>')) by {
            if others.len() == 0 {
                assert(attributes_markup(others) + closer == closer);
            } else {
                assert(attributes_markup(others) == seq![' '] + attribute_markup(others[0])
                    + attributes_markup(others.drop_first()));
            }
        }
        lemma_literal_index(text, at + 1 + written.len(), behind, 0);
        lemma_attribute_read(source, at + 1, first);
        let end = at + 1 + written.len();
        let read = AttributeView {
            name: first.name,
            value: first.value,
            position: source.position(end),
        };
        assert(!has_attribute(before, first.name)) by {
            if has_attribute(before, first.name) {
                let i = choose|i: int| 0 <= i < before.len() && #[trigger] before[i].name
                    == first.name;
                assert((before + rest)[i] == before[i]);
            }
        }
        let now = before.push(read);
        assert(well_named(now + others)) by {
            assert forall|i: int| 0 <= i < (now + others).len() implies (#[trigger] (now
                + others)[i]).name == (before + rest)[i].name by {
                if i < before.len() {
                } else if i == before.len() {
                } else {
                    assert((now + others)[i] == others[i - now.len()]);
                    assert((before + rest)[i] == rest[i - before.len()]);
                }
            }
            assert forall|i: int, j: int| 0 <= i < j < (now + others).len() implies (#[trigger] (now
                + others)[i]).name != (#[trigger] (now + others)[j]).name by {
                assert((before + rest)[i].name != (before + rest)[j].name);
            }
        }
        lemma_attributes_read(source, end, name, now, others, self_closing);
        let tag = attributes_at(source, whitespace_end(text, end), name, now)->value;
        assert(attributes_alike(tag.attributes, before + rest)) by {
            assert forall|i: int| 0 <= i < tag.attributes.len() implies {
                &&& (#[trigger] tag.attributes[i]).name == (before + rest)[i].name
                &&& tag.attributes[i].value == (before + rest)[i].value
            } by {
                assert(tag.attributes[i].name == (now + others)[i].name);
                if i < before.len() {
                } else if i == before.len() {
                } else {
                    assert((now + others)[i] == others[i - now.len()]);
                    assert((before + rest)[i] == rest[i - before.len()]);
                }
            }
        }
        assert(attributes_markup(rest).len() == 1 + written.len() + attributes_markup(
            others,
        ).len());
    }
}

/// An opening tag that was written is read as it was.
pub proof fn lemma_open_tag_read(
    source: Source,
    at: nat,
    name: Seq<char>,
    attributes: Seq<AttributeView>,
    self_closing: bool,
)
    requires
        is_name(name),
        well_named(attributes),
        at_literal(
            source.text,
            at,
            seq!['<'] + name + attributes_markup(attributes) + tag_end(self_closing),
        ),
    ensures
        open_tag_at(source, at) matches Outcome::Success { value, end } && is_tag_of(
            value,
            name,
            attributes,
            self_closing,
        ) && end == at + 1 + name.len() + attributes_markup(attributes).len() + tag_end(
            self_closing,
        ).len(),
{
    let text = source.text;
    lemma_marks();
    let behind = attributes_markup(attributes) + tag_end(self_closing);
    assert(seq!['<'] + name + attributes_markup(attributes) + tag_end(self_closing) == seq!['<']
        + (name + behind));
    lemma_literal_split(text, at, seq!['<'], name + behind);
    lemma_literal_index(text, at, seq!['<'], 0);
    lemma_literal_split(text, at + 1, name, behind);
    assert(behind.len() > 0 && (behind[0] == ' ' || behind[0] == '/' || behind[0] == '>')) by {
        if attributes.len() == 0 {
            assert(behind == tag_end(self_closing));
        } else {
            assert(attributes_markup(attributes) == seq![' '] + attribute_markup(attributes[0])
                + attributes_markup(attributes.drop_first()));
        }
    }
    lemma_literal_index(text, at + 1 + name.len(), behind, 0);
    lemma_name_accepted(text, at + 1, name);
    assert(Seq::<AttributeView>::empty() + attributes == attributes);
    lemma_attributes_read(source, at + 1 + name.len(), name, Seq::empty(), attributes, self_closing);
    assert(text.subrange(at + 1 as int, (at + 1 + name.len()) as int) == name);
}

/// The search for a character ends where it first stands.
pub proof fn lemma_find_char_exact(text: Seq<char>, at: nat, count: nat, c: char)
    requires
        at + count <= text.len(),
        forall|i: int| at <= i < at + count ==> #[trigger] text[i] != c,
        at + count == text.len() || text[(at + count) as int] == c,
    ensures
        find_char(text, at, c) == at + count,
    decreases count,
{
    if count > 0 {
        assert(text[at as int] != c);
        lemma_find_char_exact(text, at + 1, (count - 1) as nat, c);
    }
}

/// The markup of an element starts with `<` and the first character of its
/// name.
pub proof fn lemma_element_markup_start(element: ElementView)
    requires
        is_name(element.name),
    ensures
        element_markup(element).len() >= 2,
        element_markup(element)[0] == '<',
        element_markup(element)[1] == element.name[0],
{
}

/// What stands behind a content in the markup of an element starts with
/// `<`, unless a text follows.
pub proof fn lemma_rest_starts_with_tag(element: ElementView, from: nat)
    requires
        is_readable(element),
        from <= element.contents.len(),
        from < element.contents.len() ==> element.contents[from as int] is Element,
    ensures
        (contents_markup(element.contents, from) + closing_markup(element.name)).len() >= 2,
        (contents_markup(element.contents, from) + closing_markup(element.name))[0] == '<',
{
    if from < element.contents.len() {
        let child = element.contents[from as int]->Element_0;
        assert(is_readable(child));
        lemma_element_markup_start(child);
        assert(content_markup(element.contents[from as int]) == element_markup(child));
        assert(contents_markup(element.contents, from) == element_markup(child)
            + contents_markup(element.contents, from + 1));
        assert(contents_markup(element.contents, from)[0] == element_markup(child)[0]);
    } else {
        assert(contents_markup(element.contents, from) + closing_markup(element.name)
            == closing_markup(element.name));
    }
}

/// Whether `before` are the first contents of `element`, but for their
/// positions.
pub open spec fn contents_alike_up_to(
    before: Seq<ContentView>,
    element: ElementView,
) -> bool {
    &&& before.len() <= element.contents.len()
    &&& forall|i: int|
        0 <= i < before.len() ==> content_alike(#[trigger] before[i], element.contents[i])
}

/// Reading the markup of a tree gives the tree again, but for its
/// positions: the same name, the same attributes with the same values, and
/// the same contents, in the same order. The reader ends behind the markup.
pub proof fn lemma_element_read(source: Source, at: nat, element: ElementView)
    requires
        is_readable(element),
        at_literal(source.text, at, element_markup(element)),
    ensures
        element_at(source, at) matches Outcome::Success { value, end } && alike(value, element)
            && end == at + element_markup(element).len(),
    decreases element, element.contents.len() + 1,
{
    let text = source.text;
    let empty = element.contents.len() == 0;
    let open = seq!['<'] + element.name + attributes_markup(element.attributes) + tag_end(empty);
    let tail = if empty {
        Seq::<char>::empty()
    } else {
        contents_markup(element.contents, 0) + closing_markup(element.name)
    };
    assert(element_markup(element) == open + tail);
    lemma_literal_split(text, at, open, tail);
    lemma_open_tag_read(source, at, element.name, element.attributes, empty);
    let tag = open_tag_at(source, at)->value;
    let end = open_tag_at(source, at)->end;
    if !empty {
        lemma_body_read(source, end, tag, Seq::empty(), element, 0);
    }
}

/// Reading the contents of a tree from the one at `from` on, and its closing
/// tag, gives those contents again, but for their positions, behind those
/// that were read `before`.
pub proof fn lemma_body_read(
    source: Source,
    at: nat,
    tag: OpenTagView,
    before: Seq<ContentView>,
    element: ElementView,
    from: nat,
)
    requires
        is_readable(element),
        from <= element.contents.len(),
        tag.name == element.name,
        before.len() == from,
        contents_alike_up_to(before, element),
        at_literal(
            source.text,
            at,
            contents_markup(element.contents, from) + closing_markup(element.name),
        ),
        from > 0 && from < element.contents.len() && element.contents[from - 1] is Text
            ==> element.contents[from as int] is Element,
    ensures
        body_at(source, at, tag, before) matches Outcome::Success { value, end } && value.name
            == tag.name && value.attributes == tag.attributes && value.position == tag.position
            && value.contents.len() == element.contents.len() && contents_alike_up_to(
            value.contents,
            element,
        ) && end == at + contents_markup(element.contents, from).len() + closing_markup(
            element.name,
        ).len(),
    decreases element, element.contents.len() - from,
{
    let text = source.text;
    let name = element.name;
    let closing = closing_markup(name);
    lemma_marks();
    if from == element.contents.len() {
        assert(contents_markup(element.contents, from) + closing == closing);
        assert(closing == seq!['<', '/'] + (name + seq!['>']));
        lemma_literal_split(text, at, seq!['<', '/'], name + seq!['>']);
        lemma_literal_index(text, at, seq!['<', '/'], 0);
        lemma_literal_index(text, at, seq!['<', '/'], 1);
        lemma_literal_split(text, at + 2, name, seq!['>']);
        lemma_literal_index(text, at + 2 + name.len(), seq!['>'], 0);
        lemma_name_accepted(text, at + 2, name);
        assert(whitespace_end(text, at) == at);
        assert(text.subrange(at + 2 as int, (at + 2 + name.len()) as int) == name);
    } else {
        let content = element.contents[from as int];
        let written = content_markup(content);
        let behind = contents_markup(element.contents, from + 1) + closing;
        assert(contents_markup(element.contents, from) + closing == written + behind);
        lemma_literal_split(text, at, written, behind);
        match content {
            ContentView::Text(words) => {
                assert(is_plain_text(words));
                lemma_literal_index(text, at, words, 0);
                assert(whitespace_end(text, at) == at);
                lemma_rest_starts_with_tag(element, from + 1);
                lemma_literal_index(text, at + words.len(), behind, 0);
                assert forall|i: int| at <= i < at + words.len() implies #[trigger] text[i]
                    != '<' by {
                    lemma_literal_index(text, at, words, i - at);
                }
                lemma_find_char_exact(text, at, words.len(), '<');
                lemma_element_bounds(source, at);
                assert(content_at(source, at) == (Outcome::Success {
                    value: ContentView::Text(words),
                    end: at + words.len(),
                }));
                let now = before.push(ContentView::Text(words));
                assert(contents_alike_up_to(now, element));
                lemma_body_read(source, at + words.len(), tag, now, element, from + 1);
            },
            ContentView::Element(child) => {
                assert(is_readable(child));
                lemma_element_markup_start(child);
                lemma_literal_index(text, at, written, 0);
                lemma_literal_index(text, at, written, 1);
                assert(whitespace_end(text, at) == at);
                assert(close_tag_at(source, at) is Decline);
                lemma_element_read(source, at, child);
                let read = element_at(source, at)->value;
                let end = element_at(source, at)->end;
                let now = before.push(ContentView::Element(read));
                assert(contents_alike_up_to(now, element));
                lemma_body_read(source, end, tag, now, element, from + 1);
            },
        }
    }
}

/// Where white space ends within the text, something else stands.
pub proof fn lemma_whitespace_end_stops(text: Seq<char>, at: nat)
    requires
        at <= text.len(),
    ensures
        whitespace_end(text, at) < text.len() ==> !is_whitespace(
            text[whitespace_end(text, at) as int],
        ),
    decreases text.len() - at,
{
    if at < text.len() && is_whitespace(text[at as int]) {
        lemma_whitespace_end_stops(text, at + 1);
    }
}

/// The search for a character passes over none of its kind, and ends at one
/// or at the end of the text.
pub proof fn lemma_find_char_stops(text: Seq<char>, at: nat, c: char)
    requires
        at <= text.len(),
    ensures
        at <= find_char(text, at, c) <= text.len(),
        forall|i: int| at <= i < find_char(text, at, c) ==> #[trigger] text[i] != c,
        find_char(text, at, c) == text.len() || text[find_char(text, at, c) as int] == c,
    decreases text.len() - at,
{
    if at < text.len() && text[at as int] != c {
        lemma_find_char_stops(text, at + 1, c);
    }
}

/// The attribute that is read bears a name.
pub proof fn lemma_attribute_named(source: Source, at: nat)
    ensures
        attribute_at(source, at) matches Outcome::Success { value, .. } ==> is_name(value.name),
{
    if name_at(source.text, at) is Some {
        lemma_name_read(source.text, at);
    }
}

/// The attributes of an opening tag that is read bear names, and no two the
/// same one.
pub proof fn lemma_attributes_named(
    source: Source,
    at: nat,
    name: Seq<char>,
    attributes: Seq<AttributeView>,
)
    requires
        well_named(attributes),
    ensures
        attributes_at(source, at, name, attributes) matches Outcome::Success { value, .. }
            ==> value.name == name && well_named(value.attributes),
    decreases source.text.len() - at,
{
    let text = source.text;
    match attribute_at(source, at) {
        Outcome::Success { value, end } => {
            if !has_attribute(attributes, value.name) {
                lemma_attribute_named(source, at);
                lemma_attribute_bounds(source, at);
                lemma_whitespace_end_bounds(text, end);
                let now = attributes.push(value);
                assert(well_named(now)) by {
                    assert forall|i: int, j: int| 0 <= i < j < now.len() implies (#[trigger] now[i]).name
                        != (#[trigger] now[j]).name by {
                        if j == attributes.len() {
                            assert(attributes[i].name != value.name);
                        }
                    }
                }
                lemma_attributes_named(source, whitespace_end(text, end), name, now);
            }
        },
        _ => {},
    }
}

/// The opening tag that is read bears a name, its attributes bear names,
/// and no two the same one.
pub proof fn lemma_open_tag_named(source: Source, at: nat)
    ensures
        open_tag_at(source, at) matches Outcome::Success { value, .. } ==> is_name(value.name)
            && well_named(value.attributes),
{
    let text = source.text;
    if at < text.len() && text[at as int] == '<' && name_at(text, at + 1) is Some {
        lemma_name_read(text, at + 1);
        let end = name_at(text, at + 1)->0;
        lemma_attributes_named(
            source,
            whitespace_end(text, end),
            text.subrange(at + 1 as int, end as int),
            Seq::empty(),
        );
    }
}

/// The content that is read is a text that is not empty, holds no `<`,
/// starts with no white space and ends before a `<` or at the end of the
/// text; or it is an element that reading can give.
pub proof fn lemma_content_readable(source: Source, at: nat)
    requires
        at <= source.text.len(),
    ensures
        content_at(source, at) matches Outcome::Success { value, end } ==> match value {
            ContentView::Text(text) => is_plain_text(text) && (end == source.text.len()
                || source.text[end as int] == '<'),
            ContentView::Element(element) => is_readable(element),
        },
    decreases source.text.len() - at, 1nat,
{
    let text = source.text;
    let start = whitespace_end(text, at);
    lemma_whitespace_end_bounds(text, at);
    lemma_whitespace_end_stops(text, at);
    if start < text.len() {
        lemma_element_readable(source, start);
        lemma_element_bounds(source, start);
        if element_at(source, start) is Decline {
            lemma_find_char_stops(text, start, '<');
            let end = find_char(text, start, '<');
            let words = text.subrange(start as int, end as int);
            assert(text[start as int] != '<');
            assert(end > start);
            assert(words[0] == text[start as int]);
            assert forall|i: int| 0 <= i < words.len() implies #[trigger] words[i] != '<' by {
                assert(words[i] == text[start + i]);
            }
        }
    }
}

/// The element that is read is one that reading can give: a tree is
/// written back from what was read, never from anything else.
pub proof fn lemma_element_readable(source: Source, at: nat)
    requires
        at <= source.text.len(),
    ensures
        element_at(source, at) matches Outcome::Success { value, .. } ==> is_readable(value),
    decreases source.text.len() - at, 0nat,
{
    lemma_open_tag_named(source, at);
    lemma_open_tag_bounds(source, at);
    match open_tag_at(source, at) {
        Outcome::Success { value: tag, end } => {
            if !tag.self_closing {
                lemma_body_readable(source, end, tag, Seq::empty());
            }
        },
        _ => {},
    }
}

/// The element that is read from its contents on is one that reading can
/// give, where the contents read `before` are such.
pub proof fn lemma_body_readable(
    source: Source,
    at: nat,
    tag: OpenTagView,
    before: Seq<ContentView>,
)
    requires
        at <= source.text.len(),
        is_name(tag.name),
        well_named(tag.attributes),
        contents_readable(before),
        before.len() > 0 && before.last() is Text ==> at == source.text.len() || source.text[at as int]
            == '<',
    ensures
        body_at(source, at, tag, before) matches Outcome::Success { value, .. } ==> is_readable(
            value,
        ),
    decreases source.text.len() - at, 2nat,
{
    let text = source.text;
    let start = whitespace_end(text, at);
    lemma_marks();
    lemma_whitespace_end_bounds(text, at);
    lemma_whitespace_end_idempotent(text, at);
    if close_tag_at(source, start) is Decline {
        lemma_content_bounds(source, start);
        lemma_content_readable(source, start);
        match content_at(source, start) {
            Outcome::Success { value, end } => {
                let now = before.push(value);
                if before.len() > 0 && before.last() is Text {
                    assert(start == at);
                    lemma_element_bounds(source, at);
                    assert(value is Element);
                }
                assert(contents_readable(now)) by {
                    assert forall|i: int| 0 <= i < now.len() implies match #[trigger] now[i] {
                        ContentView::Text(words) => {
                            &&& is_plain_text(words)
                            &&& i + 1 < now.len() ==> now[i + 1] is Element
                        },
                        ContentView::Element(child) => is_readable(child),
                    } by {
                        if i < before.len() {
                            assert(now[i] == before[i]);
                            if i + 1 < before.len() {
                                assert(now[i + 1] == before[i + 1]);
                            }
                        }
                    }
                }
                lemma_body_readable(source, end, tag, now);
            },
            _ => {},
        }
    }
}

/// Writing back what was read, and reading that, gives the same tree but
/// for its positions: the same name, the same attributes with the same
/// values, and the same contents in the same order.
pub proof fn lemma_round_trip(source: Source, at: nat, path: Seq<char>)
    requires
        element_at(source, at) is Success,
    ensures
        ({
            let read = element_at(source, at)->value;
            let written = Source { path, text: element_markup(read) };
            &&& element_at(written, 0) matches Outcome::Success { value, end }
            &&& alike(value, read)
            &&& end == written.text.len()
        }),
{
    let read = element_at(source, at)->value;
    let written = Source { path, text: element_markup(read) };
    assert(at < source.text.len());
    lemma_element_readable(source, at);
    assert(written.text.subrange(0, written.text.len() as int) == written.text);
    lemma_element_read(written, 0, read);
}

/// Appends `value`, as it is written between double quotes, to `out`.
fn push_escaped(out: &mut String, value: &str)
    ensures
        final(out)@ == old(out)@ + escaped(value@),
{
    let chars = crate::text::to_chars(value);
    let ghost start = out@;
    let mut k: usize = 0;
    assert(chars@.skip(0) == chars@);
    while k < chars.len()
        invariant
            k <= chars.len(),
            chars@ == value@,
            out@ + escaped(chars@.skip(k as int)) == start + escaped(value@),
        decreases chars.len() - k,
    {
        let c = chars[k];
        let ghost rest = chars@.skip(k as int);
        let ghost before = out@;
        proof {
            assert(rest[0] == c);
            assert(rest.drop_first() == chars@.skip(k + 1));
        }
        if c == '\\' || c == '"' {
            out.push('\\');
            out.push(c);
            assert(before.push('\\').push(c) + escaped(chars@.skip(k + 1)) == before + (seq![
                '\\',
                c,
            ] + escaped(chars@.skip(k + 1))));
        } else {
            out.push(c);
            assert(before.push(c) + escaped(chars@.skip(k + 1)) == before + (seq![c] + escaped(
                chars@.skip(k + 1),
            )));
        }
        k += 1;
    }
    assert(escaped(chars@.skip(chars.len() as int)) == Seq::<char>::empty());
    assert(out@ + Seq::<char>::empty() == out@);
}

/// Appends the markup of `attribute` to `out`.
fn push_attribute(out: &mut String, attribute: &Attribute)
    ensures
        final(out)@ == old(out)@ + attribute_markup(attribute@),
{
    let ghost start = out@;
    out.append(attribute.name.as_str());
    match &attribute.value {
        Some(value) => {
            out.push('=');
            out.push('"');
            push_escaped(out, value.as_str());
            out.push('"');
            assert(out@ == start + (attribute.name@ + seq!['=', '"'] + escaped(value@) + seq![
                '"',
            ]));
        },
        None => {},
    }
}

/// Appends the markup of `attributes` to `out`.
fn push_attributes(out: &mut String, attributes: &Vec<Attribute>)
    ensures
        final(out)@ == old(out)@ + attributes_markup(attribute_views(attributes@)),
{
    let ghost start = out@;
    let ghost all = attribute_views(attributes@);
    let mut i: usize = 0;
    assert(all.skip(0) == all);
    while i < attributes.len()
        invariant
            i <= attributes.len(),
            all == attribute_views(attributes@),
            out@ + attributes_markup(all.skip(i as int)) == start + attributes_markup(all),
        decreases attributes.len() - i,
    {
        let ghost before = out@;
        let ghost rest = all.skip(i as int);
        proof {
            assert(rest[0] == attributes[i as int]@);
            assert(rest.drop_first() == all.skip(i + 1));
        }
        out.push(' ');
        push_attribute(out, &attributes[i]);
        assert(before.push(' ') + attribute_markup(rest[0]) + attributes_markup(all.skip(i + 1))
            == before + (seq![' '] + attribute_markup(rest[0]) + attributes_markup(
            all.skip(i + 1),
        )));
        i += 1;
    }
    assert(attributes_markup(all.skip(attributes.len() as int)) == Seq::<char>::empty());
    assert(out@ + Seq::<char>::empty() == out@);
}

impl<'a> Element<'a> {
    /// Appends this element as markup to `out`.
    pub fn write_markup(&self, out: &mut String)
        ensures
            final(out)@ == old(out)@ + element_markup(self@),
        decreases self,
    {
        let ghost start = out@;
        proof {
            lemma_element_view(self);
            lemma_content_views(self.contents@);
        }
        out.push('<');
        out.append(self.name.as_str());
        push_attributes(out, &self.attributes);
        let ghost open = seq!['<'] + self@.name + attributes_markup(self@.attributes);
        assert(out@ == start + open);
        if self.contents.len() == 0 {
            out.push('/');
            out.push('>');
            assert(out@ == start + (open + tag_end(true) + Seq::<char>::empty()));
            return ;
        }
        out.push('>');
        let ghost inner = out@;
        let ghost contents = self@.contents;
        let mut i: usize = 0;
        while i < self.contents.len()
            invariant
                i <= self.contents.len(),
                contents == self@.contents,
                contents == content_views(self.contents@),
                contents.len() == self.contents.len(),
                out@ + contents_markup(contents, i as nat) == inner + contents_markup(contents, 0),
            decreases self.contents.len() - i,
        {
            let ghost before = out@;
            proof {
                lemma_content_views(self.contents@);
                assert(contents[i as int] == self.contents[i as int]@);
            }
            match &self.contents[i] {
                Content::Element(child) => {
                    child.write_markup(out);
                },
                Content::Text(text) => {
                    out.append(text.as_str());
                },
            }
            assert(out@ == before + content_markup(contents[i as int]));
            assert(before + content_markup(contents[i as int]) + contents_markup(
                contents,
                (i + 1) as nat,
            ) == before + (content_markup(contents[i as int]) + contents_markup(
                contents,
                (i + 1) as nat,
            )));
            i += 1;
        }
        assert(contents_markup(contents, contents.len()) == Seq::<char>::empty());
        assert(out@ + Seq::<char>::empty() == out@);
        let ghost body = out@;
        out.push('<');
        out.push('/');
        out.append(self.name.as_str());
        out.push('>');
        assert(out@ == body + closing_markup(self@.name));
        assert(out@ == start + (open + tag_end(false) + (contents_markup(contents, 0)
            + closing_markup(self@.name))));
    }

    /// This element as markup: a tag that closes itself where it holds
    /// nothing, else an opening tag, the contents and a closing tag; values
    /// stand between double quotes.
    pub fn to_markup(&self) -> (out: String)
        ensures
            out@ == element_markup(self@),
    {
        let mut out = String::new();
        self.write_markup(&mut out);
        assert(Seq::<char>::empty() + element_markup(self@) == element_markup(self@));
        out
    }
}

} // verus!
