//! Typed extraction: building values from the text of an attribute, from an
//! attribute, or from an element. Every failure is an error at the position
//! of the attribute or element that it concerns.

use vstd::prelude::*;
use vstd::string::StringExecFns;
use crate::position::{Error, ErrorView, Position, PositionView};
use crate::tree::{
    Attribute, AttributeView, Content, ContentView, Element, ElementView, children_named,
    has_attribute, lemma_content_views, lemma_element_view, lemma_lookup_none, lookup,
};

verus! {

/// A type whose values can be built from a text and the position it was
/// found at.
pub trait FromValue<'a>: Sized {
    /// Whether `result` is what the text `value`, found at `position`, gives.
    spec fn value_yields(
        value: Seq<char>,
        position: PositionView,
        result: Result<Self, Error<'a>>,
    ) -> bool;

    /// Builds a value from `value`, or fails with an error at `position`.
    fn from_value(value: &str, position: &Position<'a>) -> (result: Result<Self, Error<'a>>)
        ensures
            Self::value_yields(value@, position@, result),
    ;
}

/// A type whose values can be built from an attribute.
pub trait FromAttribute<'a>: Sized {
    /// Whether `result` is what `attribute` gives.
    spec fn attribute_yields(attribute: AttributeView, result: Result<Self, Error<'a>>) -> bool;

    /// Builds a value from `attribute`, or fails with an error at its
    /// position.
    fn from_attribute(attribute: &Attribute<'a>) -> (result: Result<Self, Error<'a>>)
        ensures
            Self::attribute_yields(attribute@, result),
    ;
}

/// A type whose values can be built from an element.
pub trait FromElement<'a>: Sized {
    /// Whether `result` is what `element` gives.
    spec fn element_yields(element: ElementView, result: Result<Self, Error<'a>>) -> bool;

    /// Builds a value from `element`, or fails with an error at the position
    /// of the element, attribute or child that it concerns.
    fn from_element(element: &Element<'a>) -> (result: Result<Self, Error<'a>>)
        ensures
            Self::element_yields(element@, result),
    ;
}

/// Whether `result` is the error `message` at `position`.
pub open spec fn fails_with<T>(
    result: Result<T, Error>,
    message: Seq<char>,
    position: PositionView,
) -> bool {
    result matches Err(error) && error@ == (ErrorView { message, position })
}

/// The message for an attribute `name` that has no value.
pub open spec fn no_value_message(name: Seq<char>) -> Seq<char> {
    "expected non-empty value for '"@ + name + "'"@
}

/// The message for an attribute `name` that is not there.
pub open spec fn no_attribute_message(name: Seq<char>) -> Seq<char> {
    "expected '"@ + name + "' attribute"@
}

/// The message for a child element `name` that is not there.
pub open spec fn no_child_message(name: Seq<char>) -> Seq<char> {
    "expected '"@ + name + "' element"@
}

/// `before`, `name` and `after` in one string.
pub fn message_about(before: &str, name: &str, after: &str) -> (message: String)
    ensures
        message@ == before@ + name@ + after@,
{
    let mut message = before.to_owned();
    message.append(name);
    message.append(after);
    message
}

/// The text of a string is itself.
impl<'a> FromValue<'a> for String {
    open spec fn value_yields(
        value: Seq<char>,
        position: PositionView,
        result: Result<Self, Error<'a>>,
    ) -> bool {
        result matches Ok(text) && text@ == value
    }

    fn from_value(value: &str, position: &Position<'a>) -> (result: Result<Self, Error<'a>>) {
        Ok(value.to_owned())
    }
}

/// What can be built from a text can be built from an attribute with a
/// value. A flag, an attribute without a value, is an error.
impl<'a, T: FromValue<'a>> FromAttribute<'a> for T {
    open spec fn attribute_yields(attribute: AttributeView, result: Result<Self, Error<'a>>) -> bool {
        match attribute.value {
            Some(value) => T::value_yields(value, attribute.position, result),
            None => fails_with(result, no_value_message(attribute.name), attribute.position),
        }
    }

    fn from_attribute(attribute: &Attribute<'a>) -> (result: Result<Self, Error<'a>>) {
        match &attribute.value {
            Some(value) => T::from_value(value.as_str(), &attribute.position),
            None => Err(
                attribute.position.error(
                    message_about("expected non-empty value for '", attribute.name.as_str(), "'"),
                ),
            ),
        }
    }
}

/// The message for an element that should hold a text and nothing else.
pub open spec fn no_text_message() -> Seq<char> {
    "expected text content"@
}

/// The text that `element` holds, where it holds one text and nothing else.
pub open spec fn only_text(element: ElementView) -> Option<Seq<char>> {
    if element.contents.len() == 1 {
        match element.contents[0] {
            ContentView::Text(text) => Some(text),
            ContentView::Element(_) => None,
        }
    } else {
        None
    }
}

/// What can be built from a text can be built from an element that holds
/// one text and nothing else. Any other element is an error.
impl<'a, T: FromValue<'a>> FromElement<'a> for T {
    open spec fn element_yields(element: ElementView, result: Result<Self, Error<'a>>) -> bool {
        match only_text(element) {
            Some(text) => T::value_yields(text, element.position, result),
            None => fails_with(result, no_text_message(), element.position),
        }
    }

    fn from_element(element: &Element<'a>) -> (result: Result<Self, Error<'a>>) {
        match element.only_text() {
            Some(text) => T::from_value(text, &element.position),
            None => Err(element.position.error_str("expected text content")),
        }
    }
}

/// Whether `result` is what `attribute` gives, present or not.
pub open spec fn optional_yields<'a, T: FromAttribute<'a>>(
    attribute: Option<AttributeView>,
    result: Result<Option<T>, Error<'a>>,
) -> bool {
    match attribute {
        None => result matches Ok(None),
        Some(attribute) => match result {
            Ok(Some(value)) => T::attribute_yields(attribute, Ok(value)),
            Ok(None) => false,
            Err(error) => T::attribute_yields(attribute, Err(error)),
        },
    }
}

/// Whether `result` is what the first of `children` gives, if there is one.
pub open spec fn optional_child_yields<'a, T: FromElement<'a>>(
    children: Seq<ElementView>,
    result: Result<Option<T>, Error<'a>>,
) -> bool {
    if children.len() == 0 {
        result matches Ok(None)
    } else {
        match result {
            Ok(Some(value)) => T::element_yields(children[0], Ok(value)),
            Ok(None) => false,
            Err(error) => T::element_yields(children[0], Err(error)),
        }
    }
}

/// Whether `element` may give a value.
pub open spec fn may_yield<'a, T: FromElement<'a>>(element: ElementView) -> bool {
    exists|value: T| #[trigger] T::element_yields(element, Ok(value))
}

/// Whether `error` is what the first failing one of `children` gives: the
/// child at `k` gives it, and those before it give values.
pub open spec fn first_failure<'a, T: FromElement<'a>>(
    children: Seq<ElementView>,
    k: int,
    error: Error<'a>,
) -> bool {
    &&& 0 <= k < children.len()
    &&& T::element_yields(children[k], Err(error))
    &&& forall|i: int| 0 <= i < k ==> may_yield::<T>(#[trigger] children[i])
}

/// Whether `values` are what `children` give, one each, in the same order.
pub open spec fn all_yield<'a, T: FromElement<'a>>(
    children: Seq<ElementView>,
    values: Seq<T>,
) -> bool {
    &&& values.len() == children.len()
    &&& forall|i: int|
        0 <= i < children.len() ==> T::element_yields(#[trigger] children[i], Ok(values[i]))
}

impl<'a> Element<'a> {
    /// The text that this element holds, where it holds one text and nothing
    /// else.
    pub fn only_text(&self) -> (text: Option<&str>)
        ensures
            match only_text(self@) {
                Some(held) => text matches Some(found) && found@ == held,
                None => text is None,
            },
    {
        proof {
            lemma_element_view(self);
            lemma_content_views(self.contents@);
        }
        if self.contents.len() != 1 {
            return None;
        }
        match &self.contents[0] {
            Content::Text(text) => Some(text.as_str()),
            Content::Element(_) => None,
        }
    }

    /// The value of the attribute `name`, which must be there.
    pub fn required<T: FromAttribute<'a>>(&self, name: &str) -> (result: Result<T, Error<'a>>)
        ensures
            match lookup(self@.attributes, name@) {
                Some(attribute) => T::attribute_yields(attribute, result),
                None => fails_with(result, no_attribute_message(name@), self@.position),
            },
    {
        match self.attribute_index(name) {
            Some(i) => T::from_attribute(&self.attributes[i]),
            None => Err(self.position.error(message_about("expected '", name, "' attribute"))),
        }
    }

    /// The value of the attribute `name`, if it is there.
    pub fn optional<T: FromAttribute<'a>>(&self, name: &str) -> (result: Result<
        Option<T>,
        Error<'a>,
    >)
        ensures
            optional_yields::<T>(lookup(self@.attributes, name@), result),
    {
        match self.attribute_index(name) {
            Some(i) => match T::from_attribute(&self.attributes[i]) {
                Ok(value) => Ok(Some(value)),
                Err(error) => Err(error),
            },
            None => Ok(None),
        }
    }

    /// Whether the attribute `name` is there, with a value or without.
    pub fn presence(&self, name: &str) -> (present: bool)
        ensures
            present == has_attribute(self@.attributes, name@),
    {
        proof {
            lemma_lookup_none(self@.attributes, name@);
        }
        self.attribute_index(name).is_some()
    }

    /// The value of the first child element `name`, which must be there.
    pub fn child<T: FromElement<'a>>(&self, name: &str) -> (result: Result<T, Error<'a>>)
        ensures
            children_named(self@.contents, name@).len() > 0 ==> T::element_yields(
                children_named(self@.contents, name@)[0],
                result,
            ),
            children_named(self@.contents, name@).len() == 0 ==> fails_with(
                result,
                no_child_message(name@),
                self@.position,
            ),
    {
        let children = self.children_named(name);
        if children.len() == 0 {
            return Err(self.position.error(message_about("expected '", name, "' element")));
        }
        T::from_element(children[0])
    }

    /// The value of the first child element `name`, if there is one.
    pub fn optional_child<T: FromElement<'a>>(&self, name: &str) -> (result: Result<
        Option<T>,
        Error<'a>,
    >)
        ensures
            optional_child_yields::<T>(children_named(self@.contents, name@), result),
    {
        let children = self.children_named(name);
        if children.len() == 0 {
            return Ok(None);
        }
        match T::from_element(children[0]) {
            Ok(value) => Ok(Some(value)),
            Err(error) => Err(error),
        }
    }

    /// What each child element `name` gives, in the order they were written.
    pub fn children<T: FromElement<'a>>(&self, name: &str) -> (results: Vec<Result<T, Error<'a>>>)
        ensures
            results@.len() == children_named(self@.contents, name@).len(),
            forall|i: int|
                0 <= i < results@.len() ==> T::element_yields(
                    children_named(self@.contents, name@)[i],
                    #[trigger] results@[i],
                ),
    {
        let children = self.children_named(name);
        let ghost wanted = children_named(self@.contents, name@);
        let mut results: Vec<Result<T, Error<'a>>> = Vec::new();
        let mut i: usize = 0;
        while i < children.len()
            invariant
                i <= children.len(),
                children@.len() == wanted.len(),
                forall|k: int| 0 <= k < children@.len() ==> (#[trigger] children@[k])@ == wanted[k],
                results@.len() == i,
                forall|k: int| 0 <= k < i ==> T::element_yields(wanted[k], #[trigger] results@[k]),
            decreases children.len() - i,
        {
            let result = T::from_element(children[i]);
            results.push(result);
            i += 1;
        }
        results
    }

    /// The values of the child elements `name`, in the order they were
    /// written, or the error of the first one that fails; those behind it
    /// are not looked at.
    pub fn collect_children<T: FromElement<'a>>(&self, name: &str) -> (result: Result<
        Vec<T>,
        Error<'a>,
    >)
        ensures
            result matches Ok(values) ==> all_yield::<T>(
                children_named(self@.contents, name@),
                values@,
            ),
            result matches Err(error) ==> exists|k: int|
                #[trigger] first_failure::<T>(children_named(self@.contents, name@), k, error),
    {
        let children = self.children_named(name);
        let ghost wanted = children_named(self@.contents, name@);
        let mut values: Vec<T> = Vec::new();
        let mut i: usize = 0;
        while i < children.len()
            invariant
                i <= children.len(),
                children@.len() == wanted.len(),
                forall|k: int| 0 <= k < children@.len() ==> (#[trigger] children@[k])@ == wanted[k],
                wanted == children_named(self@.contents, name@),
                values@.len() == i,
                forall|k: int|
                    0 <= k < i ==> T::element_yields(#[trigger] wanted[k], Ok(values@[k])),
            decreases children.len() - i,
        {
            match T::from_element(children[i]) {
                Ok(value) => {
                    values.push(value);
                },
                Err(error) => {
                    proof {
                        assert forall|k: int| 0 <= k < i implies may_yield::<T>(
                            #[trigger] wanted[k],
                        ) by {
                            assert(T::element_yields(wanted[k], Ok(values@[k])));
                        }
                        assert(first_failure::<T>(wanted, i as int, error));
                    }
                    let failed: Result<Vec<T>, Error<'a>> = Err(error);
                    proof {
                        assert(failed matches Err(e) ==> first_failure::<T>(wanted, i as int, e));
                    }
                    return failed;
                },
            }
            i += 1;
        }
        Ok(values)
    }
}

/// Whether `result` is what `wanted` says: a value that stands for the
/// wanted one, or the wanted error.
pub open spec fn gives<T: View>(wanted: Result<T::V, ErrorView>, result: Result<T, Error>) -> bool {
    match wanted {
        Ok(value) => result matches Ok(found) && found@ == value,
        Err(error) => result matches Err(found) && found@ == error,
    }
}

/// What the children give together, each converted by `convert`: their
/// values in the same order, or the error of the first that fails.
pub open spec fn collect<V>(
    children: Seq<ElementView>,
    convert: spec_fn(ElementView) -> Result<V, ErrorView>,
) -> Result<Seq<V>, ErrorView>
    decreases children.len(),
{
    if children.len() == 0 {
        Ok(Seq::empty())
    } else {
        match collect(children.drop_last(), convert) {
            Err(error) => Err(error),
            Ok(before) => match convert(children.last()) {
                Ok(value) => Ok(before.push(value)),
                Err(error) => Err(error),
            },
        }
    }
}

/// Children that all give a value give those values together.
pub proof fn lemma_collect_values<V>(
    children: Seq<ElementView>,
    convert: spec_fn(ElementView) -> Result<V, ErrorView>,
    values: Seq<V>,
)
    requires
        values.len() == children.len(),
        forall|i: int| 0 <= i < children.len() ==> convert(#[trigger] children[i]) == Ok::<
            V,
            ErrorView,
        >(values[i]),
    ensures
        collect(children, convert) == Ok::<Seq<V>, ErrorView>(values),
    decreases children.len(),
{
    if children.len() > 0 {
        let before = children.drop_last();
        assert forall|i: int| 0 <= i < before.len() implies convert(#[trigger] before[i]) == Ok::<
            V,
            ErrorView,
        >(values.drop_last()[i]) by {
            assert(before[i] == children[i]);
        }
        lemma_collect_values(before, convert, values.drop_last());
        assert(convert(children[children.len() - 1]) == Ok::<V, ErrorView>(values.last()));
        assert(values.drop_last().push(values.last()) == values);
    } else {
        assert(values == Seq::<V>::empty());
    }
}

/// Children of which the one at `k` is the first to fail give its error
/// together.
pub proof fn lemma_collect_error<V>(
    children: Seq<ElementView>,
    convert: spec_fn(ElementView) -> Result<V, ErrorView>,
    k: int,
    error: ErrorView,
)
    requires
        0 <= k < children.len(),
        convert(children[k]) == Err::<V, ErrorView>(error),
        forall|i: int| 0 <= i < k ==> convert(#[trigger] children[i]) is Ok,
    ensures
        collect(children, convert) == Err::<Seq<V>, ErrorView>(error),
    decreases children.len(),
{
    let before = children.drop_last();
    if k == children.len() - 1 {
        assert forall|i: int| 0 <= i < before.len() implies convert(#[trigger] before[i]) is Ok by {
            assert(before[i] == children[i]);
        }
        lemma_collect_is_ok(before, convert);
    } else {
        assert(before[k] == children[k]);
        assert forall|i: int| 0 <= i < k implies convert(#[trigger] before[i]) is Ok by {
            assert(before[i] == children[i]);
        }
        lemma_collect_error(before, convert, k, error);
    }
}

/// Children that all give a value give values together.
pub proof fn lemma_collect_is_ok<V>(
    children: Seq<ElementView>,
    convert: spec_fn(ElementView) -> Result<V, ErrorView>,
)
    ensures
        (forall|i: int| 0 <= i < children.len() ==> convert(#[trigger] children[i]) is Ok)
            ==> collect(children, convert) is Ok,
    decreases children.len(),
{
    if children.len() > 0 {
        let before = children.drop_last();
        lemma_collect_is_ok(before, convert);
        if forall|i: int| 0 <= i < children.len() ==> convert(#[trigger] children[i]) is Ok {
            assert forall|i: int| 0 <= i < before.len() implies convert(#[trigger] before[i]) is Ok by {
                assert(before[i] == children[i]);
            }
            assert(convert(children[children.len() - 1]) is Ok);
        }
    }
}

/// What each item of a list stands for.
pub open spec fn views<T: View>(items: Seq<T>) -> Seq<T::V> {
    Seq::new(items.len(), |i: int| items[i]@)
}

/// Where each child gives what `convert` says, and nothing else, the
/// children give together what `collect` says.
pub proof fn lemma_collected<'a, T: FromElement<'a> + View>(
    children: Seq<ElementView>,
    convert: spec_fn(ElementView) -> Result<T::V, ErrorView>,
    result: Result<Vec<T>, Error<'a>>,
)
    requires
        forall|child: ElementView, one: Result<T, Error<'a>>| #[trigger]
            T::element_yields(child, one) ==> gives(convert(child), one),
        result matches Ok(values) ==> all_yield::<T>(children, values@),
        result matches Err(error) ==> exists|k: int| #[trigger]
            first_failure::<T>(children, k, error),
    ensures
        match collect(children, convert) {
            Ok(values) => result matches Ok(found) && views(found@) == values,
            Err(error) => result matches Err(found) && found@ == error,
        },
{
    match result {
        Ok(values) => {
            assert forall|i: int| 0 <= i < children.len() implies convert(#[trigger] children[i])
                == Ok::<T::V, ErrorView>(views(values@)[i]) by {
                assert(T::element_yields(children[i], Ok(values@[i])));
            }
            lemma_collect_values(children, convert, views(values@));
        },
        Err(error) => {
            let k = choose|k: int| #[trigger] first_failure::<T>(children, k, error);
            assert(T::element_yields(children[k], Err(error)));
            assert forall|i: int| 0 <= i < k implies convert(#[trigger] children[i]) is Ok by {
                assert(may_yield::<T>(children[i]));
                let value = choose|value: T| #[trigger] T::element_yields(children[i], Ok(value));
                assert(T::element_yields(children[i], Ok(value)));
            }
            lemma_collect_error(children, convert, k, error@);
        },
    }
}

/// What an optional child gives: nothing where there is none, else what the
/// first one gives by `convert`.
pub open spec fn first_of<V>(
    children: Seq<ElementView>,
    convert: spec_fn(ElementView) -> Result<V, ErrorView>,
) -> Result<Option<V>, ErrorView> {
    if children.len() == 0 {
        Ok(None)
    } else {
        match convert(children[0]) {
            Ok(value) => Ok(Some(value)),
            Err(error) => Err(error),
        }
    }
}

/// The value of the attribute `name` of `element`, which must be there and
/// have a value.
pub open spec fn required_text(element: ElementView, name: Seq<char>) -> Result<
    Seq<char>,
    ErrorView,
> {
    match lookup(element.attributes, name) {
        Some(attribute) => match attribute.value {
            Some(value) => Ok(value),
            None => Err(
                ErrorView {
                    message: no_value_message(attribute.name),
                    position: attribute.position,
                },
            ),
        },
        None => Err(
            ErrorView { message: no_attribute_message(name), position: element.position },
        ),
    }
}

/// The text of the first child `name` of `element`, which must be there and
/// hold one text and nothing else.
pub open spec fn child_text(element: ElementView, name: Seq<char>) -> Result<
    Seq<char>,
    ErrorView,
> {
    let children = children_named(element.contents, name);
    if children.len() == 0 {
        Err(ErrorView { message: no_child_message(name), position: element.position })
    } else {
        text_of(children[0])
    }
}

/// The one text that `element` holds.
pub open spec fn text_of(element: ElementView) -> Result<Seq<char>, ErrorView> {
    match only_text(element) {
        Some(text) => Ok(text),
        None => Err(ErrorView { message: no_text_message(), position: element.position }),
    }
}

} // verus!
