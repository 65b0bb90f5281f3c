//! The document tree: elements, their attributes and what they contain.

use vstd::prelude::*;
use crate::position::{Position, PositionView};

verus! {

/// An attribute of an element. One without a value is a flag: the name
/// alone, with no `=` behind it.
#[derive(Debug)]
pub struct Attribute<'a> {
    pub name: String,
    pub value: Option<String>,
    pub position: Position<'a>,
}

/// What an [`Attribute`] stands for.
pub struct AttributeView {
    pub name: Seq<char>,
    pub value: Option<Seq<char>>,
    pub position: PositionView,
}

impl<'a> View for Attribute<'a> {
    type V = AttributeView;

    open spec fn view(&self) -> AttributeView {
        AttributeView {
            name: self.name@,
            value: match self.value {
                Some(value) => Some(value@),
                None => None,
            },
            position: self.position@,
        }
    }
}

/// One piece of what an element contains.
#[derive(Debug)]
pub enum Content<'a> {
    Element(Element<'a>),
    Text(String),
}

/// An element: its name, its attributes in the order they were written, what
/// it contains in the order it was written, and where its opening tag ends.
#[derive(Debug)]
pub struct Element<'a> {
    pub name: String,
    pub attributes: Vec<Attribute<'a>>,
    pub contents: Vec<Content<'a>>,
    pub position: Position<'a>,
}

/// What a [`Content`] stands for.
pub enum ContentView {
    Element(ElementView),
    Text(Seq<char>),
}

/// What an [`Element`] stands for.
pub struct ElementView {
    pub name: Seq<char>,
    pub attributes: Seq<AttributeView>,
    pub contents: Seq<ContentView>,
    pub position: PositionView,
}

/// What a list of attributes stands for.
pub open spec fn attribute_views(attributes: Seq<Attribute>) -> Seq<AttributeView> {
    Seq::new(attributes.len(), |i: int| attributes[i]@)
}

impl<'a> View for Content<'a> {
    type V = ContentView;

    open spec fn view(&self) -> ContentView
        decreases self,
    {
        match self {
            Content::Element(element) => ContentView::Element(element.view()),
            Content::Text(text) => ContentView::Text(text@),
        }
    }
}

impl<'a> View for Element<'a> {
    type V = ElementView;

    open spec fn view(&self) -> ElementView
        decreases self,
    {
        ElementView {
            name: self.name@,
            attributes: attribute_views(self.attributes@),
            contents: content_views(self.contents@),
            position: self.position@,
        }
    }
}

/// What a list of contents stands for.
pub open spec fn content_views(contents: Seq<Content>) -> Seq<ContentView>
    decreases contents,
{
    Seq::new(
        contents.len(),
        |i: int|
            if 0 <= i < contents.len() {
                contents[i].view()
            } else {
                ContentView::Text(Seq::empty())
            },
    )
}

/// What a list of contents stands for, item by item.
pub proof fn lemma_content_views(contents: Seq<Content>)
    ensures
        content_views(contents).len() == contents.len(),
        forall|i: int| 0 <= i < contents.len() ==> #[trigger] content_views(contents)[i] == contents[i]@,
{
    reveal_with_fuel(content_views, 2);
}

/// What an element stands for, field by field.
pub proof fn lemma_element_view(element: &Element)
    ensures
        element@.name == element.name@,
        element@.attributes == attribute_views(element.attributes@),
        element@.contents == content_views(element.contents@),
        element@.position == element.position@,
{
    reveal_with_fuel(content_views, 2);
}

/// The views of a list with one more attribute.
pub proof fn lemma_attribute_views_push(attributes: Seq<Attribute>, attribute: Attribute)
    ensures
        attribute_views(attributes.push(attribute)) == attribute_views(attributes).push(attribute@),
{
    assert(attribute_views(attributes.push(attribute)) =~= attribute_views(attributes).push(
        attribute@,
    ));
}

/// The views of a list with one more content.
pub proof fn lemma_content_views_push(contents: Seq<Content>, content: Content)
    ensures
        content_views(contents.push(content)) == content_views(contents).push(content@),
{
    assert(content_views(contents.push(content)) =~= content_views(contents).push(content@));
}

/// Whether one of `attributes` is named `name`.
pub open spec fn has_attribute(attributes: Seq<AttributeView>, name: Seq<char>) -> bool {
    exists|i: int| 0 <= i < attributes.len() && #[trigger] attributes[i].name == name
}

/// Whether no two of `attributes` share a name.
pub open spec fn distinct_names(attributes: Seq<AttributeView>) -> bool {
    forall|i: int, j: int|
        0 <= i < j < attributes.len() ==> #[trigger] attributes[i].name != #[trigger] attributes[j].name
}

/// Whether one of `attributes` is named `name`.
pub fn find_attribute<'b, 'a>(attributes: &'b Vec<Attribute<'a>>, name: &str) -> (found: Option<usize>)
    ensures
        found is None ==> !has_attribute(attribute_views(attributes@), name@),
        found matches Some(i) ==> {
            &&& i < attributes.len()
            &&& attributes[i as int]@.name == name@
            &&& forall|j: int| 0 <= j < i ==> attributes[j]@.name != name@
        },
{
    let wanted = crate::text::to_chars(name);
    let mut i: usize = 0;
    while i < attributes.len()
        invariant
            i <= attributes.len(),
            wanted@ == name@,
            forall|j: int| 0 <= j < i ==> attributes[j]@.name != name@,
        decreases attributes.len() - i,
    {
        let have = crate::text::to_chars(attributes[i].name.as_str());
        if crate::text::chars_equal(&have, &wanted) {
            return Some(i);
        }
        i += 1;
    }
    assert forall|j: int| 0 <= j < attribute_views(attributes@).len() implies #[trigger] attribute_views(
        attributes@,
    )[j].name != name@ by {
        assert(attributes[j]@.name != name@);
    }
    None
}

/// The first of `attributes` that is named `name`.
pub open spec fn lookup(attributes: Seq<AttributeView>, name: Seq<char>) -> Option<AttributeView>
    decreases attributes.len(),
{
    if attributes.len() == 0 {
        None
    } else if attributes.first().name == name {
        Some(attributes.first())
    } else {
        lookup(attributes.drop_first(), name)
    }
}

/// The elements among `contents` that are named `name`, in their order.
pub open spec fn children_named(contents: Seq<ContentView>, name: Seq<char>) -> Seq<ElementView>
    decreases contents.len(),
{
    if contents.len() == 0 {
        Seq::empty()
    } else {
        let before = children_named(contents.drop_last(), name);
        match contents.last() {
            ContentView::Element(element) if element.name == name => before.push(element),
            _ => before,
        }
    }
}

/// Looking up a name finds the attribute at the first index that bears it.
pub proof fn lemma_lookup_first(attributes: Seq<AttributeView>, name: Seq<char>, i: int)
    requires
        0 <= i < attributes.len(),
        attributes[i].name == name,
        forall|j: int| 0 <= j < i ==> attributes[j].name != name,
    ensures
        lookup(attributes, name) == Some(attributes[i]),
    decreases i,
{
    if i > 0 {
        let rest = attributes.drop_first();
        assert forall|j: int| 0 <= j < i - 1 implies rest[j].name != name by {
            assert(rest[j] == attributes[j + 1]);
        }
        lemma_lookup_first(rest, name, i - 1);
    }
}

/// Looking up a name that no attribute bears finds nothing, and the other
/// way round.
pub proof fn lemma_lookup_none(attributes: Seq<AttributeView>, name: Seq<char>)
    ensures
        lookup(attributes, name) is None <==> !has_attribute(attributes, name),
        lookup(attributes, name) matches Some(found) ==> found.name == name,
    decreases attributes.len(),
{
    if attributes.len() > 0 {
        let rest = attributes.drop_first();
        lemma_lookup_none(rest, name);
        if attributes.first().name == name {
            assert(attributes[0].name == name);
        } else {
            if has_attribute(rest, name) {
                let i = choose|i: int| 0 <= i < rest.len() && #[trigger] rest[i].name == name;
                assert(attributes[i + 1].name == name);
            }
            if has_attribute(attributes, name) {
                let i = choose|i: int|
                    0 <= i < attributes.len() && #[trigger] attributes[i].name == name;
                assert(rest[i - 1].name == name);
            }
        }
    }
}

impl<'a> Element<'a> {
    /// The index of the attribute named `name`, if there is one.
    pub fn attribute_index(&self, name: &str) -> (found: Option<usize>)
        ensures
            match lookup(self@.attributes, name@) {
                Some(attribute) => {
                    &&& found matches Some(i)
                    &&& i < self.attributes.len()
                    &&& self.attributes[i as int]@ == attribute
                },
                None => found is None,
            },
    {
        let found = find_attribute(&self.attributes, name);
        proof {
            let views = attribute_views(self.attributes@);
            lemma_lookup_none(views, name@);
            match found {
                Some(i) => {
                    lemma_lookup_first(views, name@, i as int);
                },
                None => {},
            }
        }
        found
    }

    /// The child elements named `name`, in the order they were written.
    pub fn children_named<'b>(&'b self, name: &str) -> (children: Vec<&'b Element<'a>>)
        ensures
            children@.len() == children_named(self@.contents, name@).len(),
            forall|i: int|
                0 <= i < children@.len() ==> (#[trigger] children@[i])@ == children_named(
                    self@.contents,
                    name@,
                )[i],
    {
        let wanted = crate::text::to_chars(name);
        let mut children: Vec<&'b Element<'a>> = Vec::new();
        let mut i: usize = 0;
        let ghost contents = self@.contents;
        proof {
            lemma_element_view(self);
            lemma_content_views(self.contents@);
        }
        assert(contents.take(0) == Seq::<ContentView>::empty());
        while i < self.contents.len()
            invariant
                i <= self.contents.len(),
                wanted@ == name@,
                contents == self@.contents,
                contents == content_views(self.contents@),
                contents.len() == self.contents.len(),
                children@.len() == children_named(contents.take(i as int), name@).len(),
                forall|k: int|
                    0 <= k < children@.len() ==> (#[trigger] children@[k])@ == children_named(
                        contents.take(i as int),
                        name@,
                    )[k],
            decreases self.contents.len() - i,
        {
            proof {
                assert(contents.take(i + 1).drop_last() == contents.take(i as int));
                assert(contents.take(i + 1).last() == contents[i as int]);
                lemma_content_views(self.contents@);
                assert(contents[i as int] == self.contents[i as int]@);
            }
            match &self.contents[i] {
                Content::Element(element) => {
                    let have = crate::text::to_chars(element.name.as_str());
                    if crate::text::chars_equal(&have, &wanted) {
                        children.push(element);
                    }
                },
                Content::Text(_) => {},
            }
            i += 1;
        }
        assert(contents.take(contents.len() as int) == contents);
        children
    }
}

} // verus!
