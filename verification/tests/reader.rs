use git_manager_xml::add;
use git_manager_xml::parse::{attribute, attribute_value, close_tag, content, element, name, open_tag};
use git_manager_xml::parser::Parser;
use git_manager_xml::position::Error;
use git_manager_xml::tree::{Attribute, Content, Element};

#[test]
fn it_works() {
    let result = add(2, 2);
    assert_eq!(result, 4);
}

#[test]
fn add_reaches_the_largest_number() {
    assert_eq!(add(u64::MAX - 1, 1), u64::MAX);
    assert_eq!(add(0, 0), 0);
}

#[test]
fn new_reader_starts_at_the_beginning() {
    let parser = Parser::new("a.xml", "ab");
    assert_eq!(parser.consumed(), 0);
    assert_eq!(parser.position().line, 0);
    assert_eq!(parser.position().char, 0);
    assert_eq!(parser.position().path, "a.xml");
    assert_eq!(parser.position().src, "ab");
    assert!(!parser.is_empty());
    assert_eq!(parser.peek(), Some('a'));
    assert_eq!(parser.peek_at(1), Some('b'));
    assert_eq!(parser.peek_at(2), None);
}

#[test]
fn take_char_counts_lines_and_columns() {
    let mut parser = Parser::new("a.xml", "a\nbc");
    assert_eq!(parser.take_char(), Some('a'));
    assert_eq!((parser.position().line, parser.position().char), (0, 1));
    assert_eq!(parser.take_char(), Some('\n'));
    assert_eq!((parser.position().line, parser.position().char), (1, 0));
    assert_eq!(parser.take_char(), Some('b'));
    assert_eq!(parser.take_char(), Some('c'));
    assert_eq!((parser.position().line, parser.position().char), (1, 2));
    assert_eq!(parser.take_char(), None);
    assert_eq!((parser.position().line, parser.position().char), (1, 2));
    assert!(parser.is_empty());
}

#[test]
fn take_returns_what_it_reads() {
    let mut parser = Parser::new("a.xml", "héllo\nworld");
    assert_eq!(parser.take(3), "hél");
    assert_eq!(parser.consumed(), 3);
    assert_eq!(parser.position().char, 3);
    assert_eq!(parser.take(4), "lo\nw");
    assert_eq!((parser.position().line, parser.position().char), (1, 1));
    assert_eq!(parser.take(0), "");
    assert_eq!(parser.consumed(), 7);
}

#[test]
fn take_whitespace_reads_the_leading_run() {
    let mut parser = Parser::new("a.xml", " \t\n\u{a0}\u{3000} x y");
    parser.take_whitespace();
    assert_eq!(parser.consumed(), 6);
    assert_eq!(parser.peek(), Some('x'));
    assert_eq!((parser.position().line, parser.position().char), (1, 3));
    parser.take_whitespace();
    assert_eq!(parser.consumed(), 6);
}

#[test]
fn starts_with_tests_a_prefix() {
    let mut parser = Parser::new("a.xml", "</a>");
    assert!(parser.starts_with("</"));
    assert!(parser.starts_with(""));
    assert!(!parser.starts_with("<a"));
    assert!(!parser.starts_with("</a>>"));
    parser.skip(3);
    assert!(parser.starts_with(">"));
    assert_eq!(parser.consumed(), 3);
}

#[test]
fn names_are_read_to_their_end() {
    for (text, expected) in [
        ("a", "a"),
        ("_", "_"),
        ("abc def", "abc"),
        ("a-b.c_d9>", "a-b.c_d9"),
        ("Z9=", "Z9"),
        ("xm", "xm"),
        ("xm l", "xm"),
        ("x-ml", "x-ml"),
        ("axml", "axml"),
        ("_xml", "_xml"),
        ("hé", "h"),
    ] {
        let mut parser = Parser::new("a.xml", text);
        assert_eq!(name(&mut parser).as_deref(), Some(expected), "{text}");
        assert_eq!(parser.consumed(), expected.chars().count(), "{text}");
    }
}

#[test]
fn names_decline_without_reading() {
    for text in ["", "9a", "-a", ".a", " a", "<a", "=a", "xml", "XML", "xMl-a", "Xmlns", "éa"] {
        let mut parser = Parser::new("a.xml", text);
        assert_eq!(name(&mut parser), None, "{text}");
        assert_eq!(parser.consumed(), 0, "{text}");
    }
}

#[test]
fn quoted_values_resolve_escapes() {
    let mut parser = Parser::new("a.xml", r#""a\\b\"c\'d'e" rest"#);
    assert_eq!(attribute_value(&mut parser).as_deref(), Some(r#"a\b"c'd'e"#));
    assert_eq!(parser.consumed(), 14);

    let mut parser = Parser::new("a.xml", "'it\"s\n'x");
    assert_eq!(attribute_value(&mut parser).as_deref(), Some("it\"s\n"));
    assert_eq!(parser.consumed(), 7);
    assert_eq!((parser.position().line, parser.position().char), (1, 1));

    let mut parser = Parser::new("a.xml", "\"\"");
    assert_eq!(attribute_value(&mut parser).as_deref(), Some(""));
    assert_eq!(parser.consumed(), 2);
}

#[test]
fn quoted_values_decline_without_reading() {
    for text in ["", "a", "\"abc", "'abc\"", "\"a\\nb\"", "\"a\\", "'\\"] {
        let mut parser = Parser::new("a.xml", text);
        assert_eq!(attribute_value(&mut parser), None, "{text}");
        assert_eq!(parser.consumed(), 0, "{text}");
        assert_eq!((parser.position().line, parser.position().char), (0, 0));
    }
}

fn read_attribute<'a>(text: &'a str) -> (Option<Result<Attribute<'a>, Error<'a>>>, usize) {
    let mut parser = Parser::new("a.xml", text);
    let result = attribute(&mut parser);
    (result, parser.consumed())
}

#[test]
fn attributes_with_and_without_value() {
    let (result, end) = read_attribute("key='v' x");
    let found = result.unwrap().unwrap();
    assert_eq!(found.name, "key");
    assert_eq!(found.value.as_deref(), Some("v"));
    assert_eq!(found.position.char, 7);
    assert_eq!(end, 7);

    let (result, end) = read_attribute("flag other");
    let found = result.unwrap().unwrap();
    assert_eq!(found.name, "flag");
    assert_eq!(found.value, None);
    assert_eq!(found.position.char, 4);
    assert_eq!(end, 4);

    let (result, end) = read_attribute("/>");
    assert!(result.is_none());
    assert_eq!(end, 0);
}

#[test]
fn attribute_without_quoted_value_is_an_error() {
    for text in ["k=v", "k=", "k= 'v'", "k='v"] {
        let (result, _) = read_attribute(text);
        let error = result.unwrap().unwrap_err();
        assert_eq!(error.message, "expected attribute value", "{text}");
        assert_eq!((error.position.line, error.position.char), (0, 2), "{text}");
    }
}

#[test]
fn opening_tags() {
    let mut parser = Parser::new("a.xml", "<a  k='1'\n j >x");
    let tag = open_tag(&mut parser).unwrap().unwrap();
    assert_eq!(tag.name, "a");
    assert!(!tag.self_closing);
    assert_eq!(tag.attributes.len(), 2);
    assert_eq!(tag.attributes[0].name, "k");
    assert_eq!(tag.attributes[0].value.as_deref(), Some("1"));
    assert_eq!(tag.attributes[1].name, "j");
    assert_eq!(tag.attributes[1].value, None);
    assert_eq!((tag.position.line, tag.position.char), (1, 4));
    assert_eq!(parser.consumed(), 14);

    let mut parser = Parser::new("a.xml", "<a/>");
    let tag = open_tag(&mut parser).unwrap().unwrap();
    assert!(tag.self_closing);
    assert!(tag.attributes.is_empty());
    assert_eq!(parser.consumed(), 4);

    let mut parser = Parser::new("a.xml", "a>");
    assert!(open_tag(&mut parser).is_none());
    assert_eq!(parser.consumed(), 0);
}

#[test]
fn opening_tag_errors() {
    for (text, message, column) in [
        ("<", "expected element name", 1),
        ("< a>", "expected element name", 1),
        ("<9>", "expected element name", 1),
        ("<xml>", "expected element name", 1),
        ("</a>", "expected element name", 1),
        ("<a", "expected '>' or '/>'", 2),
        ("<a /", "expected '>' or '/>'", 3),
        ("<a k='v' =>", "expected '>' or '/>'", 9),
        ("<a k=>", "expected attribute value", 5),
        ("<a k j k>", "found duplicate 'k' attribute", 8),
    ] {
        let mut parser = Parser::new("a.xml", text);
        let error = open_tag(&mut parser).unwrap().err().unwrap();
        assert_eq!(error.message, message, "{text}");
        assert_eq!((error.position.line, error.position.char), (0, column), "{text}");
    }
}

#[test]
fn closing_tags() {
    let mut parser = Parser::new("a.xml", "</ab>x");
    assert_eq!(close_tag(&mut parser).unwrap().unwrap(), "ab");
    assert_eq!(parser.consumed(), 5);

    for text in ["<a>", "<", "x", ""] {
        let mut parser = Parser::new("a.xml", text);
        assert!(close_tag(&mut parser).is_none(), "{text}");
        assert_eq!(parser.consumed(), 0, "{text}");
    }

    for (text, message, column) in [
        ("</>", "expected element name", 2),
        ("</ a>", "expected element name", 2),
        ("</a", "expected '>'", 3),
        ("</a >", "expected '>'", 3),
    ] {
        let mut parser = Parser::new("a.xml", text);
        let error = close_tag(&mut parser).unwrap().unwrap_err();
        assert_eq!(error.message, message, "{text}");
        assert_eq!(error.position.char, column, "{text}");
    }
}

#[test]
fn self_closing_element_with_attribute() {
    let mut parser = Parser::new("a.xml", "<a k=\"v\"/>rest");
    let found = element(&mut parser).unwrap().unwrap();
    assert_eq!(found.name, "a");
    assert_eq!(found.attributes.len(), 1);
    assert_eq!(found.attributes[0].name, "k");
    assert_eq!(found.attributes[0].value.as_deref(), Some("v"));
    assert!(found.contents.is_empty());
    assert_eq!(parser.consumed(), 10);
    assert_eq!(parser.position().char, 10);
    assert_eq!(parser.position().line, 0);
    assert_eq!(found.position.char, 10);
}

#[test]
fn nested_element() {
    let mut parser = Parser::new("a.xml", "<a><b/></a>");
    let found = element(&mut parser).unwrap().unwrap();
    assert_eq!(found.name, "a");
    assert!(found.attributes.is_empty());
    assert_eq!(found.contents.len(), 1);
    match &found.contents[0] {
        Content::Element(child) => {
            assert_eq!(child.name, "b");
            assert!(child.attributes.is_empty());
            assert!(child.contents.is_empty());
        }
        Content::Text(_) => panic!("expected an element"),
    }
    assert_eq!(parser.consumed(), 11);
}

#[test]
fn mismatched_closing_tag() {
    let mut parser = Parser::new("a.xml", "<a></b>");
    let error = element(&mut parser).unwrap().unwrap_err();
    assert_eq!(error.message, "mismatched closing tag");
    assert_eq!(error.position.line, 0);
    assert_eq!(error.position.char, 7);
}

#[test]
fn duplicate_attribute() {
    let mut parser = Parser::new("a.xml", "<a k=\"1\" k=\"2\"/>");
    let error = element(&mut parser).unwrap().unwrap_err();
    assert_eq!(error.message, "found duplicate 'k' attribute");
    assert_eq!(error.position.char, 14);
}

#[test]
fn missing_closing_tag() {
    let mut parser = Parser::new("a.xml", "<a>text");
    let error = element(&mut parser).unwrap().unwrap_err();
    assert_eq!(error.message, "missing closing tag");
    assert_eq!(error.position.char, 7);

    let mut parser = Parser::new("a.xml", "<a>\n  <b/>\n  ");
    let error = element(&mut parser).unwrap().unwrap_err();
    assert_eq!(error.message, "missing closing tag");
    assert_eq!((error.position.line, error.position.char), (2, 2));
}

fn texts_and_names(found: &Element) -> Vec<String> {
    let mut seen = Vec::new();
    for content in &found.contents {
        match content {
            Content::Element(child) => seen.push(format!("<{}>", child.name)),
            Content::Text(text) => seen.push(text.clone()),
        }
    }
    seen
}

#[test]
fn contents_keep_their_order_and_inner_space() {
    let mut parser = Parser::new("a.xml", "<a>\n  one two \n<b/>  <c></c>three</a>tail");
    let found = element(&mut parser).unwrap().unwrap();
    assert_eq!(texts_and_names(&found), vec!["one two \n", "<b>", "<c>", "three"]);
    assert_eq!(parser.consumed(), 37);
    assert_eq!((found.position.line, found.position.char), (0, 3));
}

#[test]
fn element_declines_where_no_tag_stands() {
    for text in ["", "text", " <a/>", "a<b/>"] {
        let mut parser = Parser::new("a.xml", text);
        assert!(element(&mut parser).is_none(), "{text}");
        assert_eq!(parser.consumed(), 0, "{text}");
    }
}

#[test]
fn errors_of_children_pass_through() {
    let mut parser = Parser::new("a.xml", "<a>\n<b>\n<c d=></c></b></a>");
    let error = element(&mut parser).unwrap().unwrap_err();
    assert_eq!(error.message, "expected attribute value");
    assert_eq!((error.position.line, error.position.char), (2, 5));
}

#[test]
fn content_is_an_element_or_a_text() {
    let mut parser = Parser::new("a.xml", "  hello <b/>");
    match content(&mut parser).unwrap().unwrap() {
        Content::Text(text) => assert_eq!(text, "hello "),
        Content::Element(_) => panic!("expected a text"),
    }
    assert_eq!(parser.consumed(), 8);
    match content(&mut parser).unwrap().unwrap() {
        Content::Element(found) => assert_eq!(found.name, "b"),
        Content::Text(_) => panic!("expected an element"),
    }
    assert!(content(&mut parser).is_none());
    assert!(parser.is_empty());
}

#[test]
fn content_of_nothing_but_space_is_none() {
    for text in ["", " ", "\n\t  \n"] {
        let mut parser = Parser::new("a.xml", text);
        assert!(content(&mut parser).is_none(), "{text:?}");
        assert!(parser.is_empty());
    }
}

#[test]
fn parse_reads_the_type_that_is_asked_for() {
    let mut parser = Parser::new("a.xml", "<a/>k='v' text");
    let found = parser.parse::<Option<Result<Element, Error>>>().unwrap().unwrap();
    assert_eq!(found.name, "a");
    let found = parser.parse::<Option<Result<Attribute, Error>>>().unwrap().unwrap();
    assert_eq!(found.name, "k");
    assert_eq!(found.value.as_deref(), Some("v"));
    match parser.parse::<Option<Result<Content, Error>>>().unwrap().unwrap() {
        Content::Text(text) => assert_eq!(text, "text"),
        Content::Element(_) => panic!("expected a text"),
    }
    assert!(parser.parse::<Option<Result<Content, Error>>>().is_none());
}

#[test]
fn position_error_keeps_message_and_place() {
    let mut parser = Parser::new("file.xml", "ab\ncd");
    parser.skip(4);
    let error = parser.position().error("wrong".to_string());
    assert_eq!(error.message, "wrong");
    assert_eq!(error.position.path, "file.xml");
    assert_eq!(error.position.src, "ab\ncd");
    assert_eq!((error.position.line, error.position.char), (1, 1));
    let error = parser.position().error_str("other");
    assert_eq!(error.message, "other");
}

#[test]
fn a_copy_reads_on_its_own() {
    let mut parser = Parser::new("a.xml", "<a/>\n<b/>");
    let mut copy = parser.clone();
    assert_eq!(element(&mut copy).unwrap().unwrap().name, "a");
    assert_eq!(copy.consumed(), 4);
    assert_eq!(parser.consumed(), 0);
    assert_eq!((parser.position().line, parser.position().char), (0, 0));
    parser = copy.clone();
    parser.take_whitespace();
    assert_eq!(element(&mut parser).unwrap().unwrap().name, "b");
    assert_eq!((parser.position().line, parser.position().char), (1, 4));
    assert_eq!(copy.consumed(), 4);
    assert_eq!(copy.position().src, "<a/>\n<b/>");
    assert_eq!(copy.peek(), Some('\n'));
}
