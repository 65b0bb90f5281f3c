use git_manager_xml::diagnostic::Style;
use git_manager_xml::document::root;
use git_manager_xml::extract::{FromAttribute, FromElement, FromValue};
use git_manager_xml::number::{to_number, Integer, NonZero, NumberFault};
use git_manager_xml::parse::element;
use git_manager_xml::parser::Parser;
use git_manager_xml::position::{Error, Position};
use git_manager_xml::tree::Element;

fn read<'a>(text: &'a str) -> Element<'a> {
    let mut parser = Parser::new("doc.xml", text);
    element(&mut parser).unwrap().unwrap()
}

fn here<'a>() -> Position<'a> {
    Position { path: "doc.xml", src: "text", line: 2, char: 5 }
}

fn message_of<T>(result: Result<T, Error>) -> String {
    match result {
        Ok(_) => panic!("expected an error"),
        Err(error) => error.message,
    }
}

#[test]
fn text_is_passed_through() {
    assert_eq!(String::from_value("any text", &here()).unwrap(), "any text");
    assert_eq!(String::from_value("", &here()).unwrap(), "");
}

#[test]
fn integer_classification() {
    assert_eq!(message_of(u8::from_value("", &here())), "expected a number, found an empty value");
    assert_eq!(message_of(u8::from_value("abc", &here())), "expected a number, found an invalid digit");
    assert_eq!(message_of(u8::from_value("256", &here())), "number is too large");
    assert_eq!(message_of(i8::from_value("-129", &here())), "number is too small");
    assert_eq!(u8::from_value("0", &here()).unwrap(), 0);
    assert_eq!(message_of(NonZero::<u8>::from_value("0", &here())), "number must not be zero");
    assert_eq!(NonZero::<u8>::from_value("7", &here()).unwrap().get(), 7);
}

#[test]
fn integer_errors_are_pinned_to_the_position() {
    let error = u32::from_value("x", &here()).unwrap_err();
    assert_eq!(error.position.path, "doc.xml");
    assert_eq!((error.position.line, error.position.char), (2, 5));
}

#[test]
fn numbers_of_every_width() {
    assert_eq!(u8::from_value("255", &here()).unwrap(), 255);
    assert_eq!(u16::from_value("65535", &here()).unwrap(), 65535);
    assert_eq!(u32::from_value("4294967295", &here()).unwrap(), u32::MAX);
    assert_eq!(u64::from_value("18446744073709551615", &here()).unwrap(), u64::MAX);
    assert_eq!(usize::from_value("12", &here()).unwrap(), 12);
    assert_eq!(i8::from_value("-128", &here()).unwrap(), -128);
    assert_eq!(i8::from_value("127", &here()).unwrap(), 127);
    assert_eq!(i16::from_value("-32768", &here()).unwrap(), i16::MIN);
    assert_eq!(i32::from_value("+2147483647", &here()).unwrap(), i32::MAX);
    assert_eq!(i64::from_value("-9223372036854775808", &here()).unwrap(), i64::MIN);
    assert_eq!(isize::from_value("-3", &here()).unwrap(), -3);
    assert_eq!(u32::from_value("+17", &here()).unwrap(), 17);
    assert_eq!(u32::from_value("0017", &here()).unwrap(), 17);
    assert_eq!(i32::from_value("-0", &here()).unwrap(), 0);
}

#[test]
fn numbers_out_of_range() {
    assert_eq!(message_of(u16::from_value("65536", &here())), "number is too large");
    assert_eq!(message_of(u64::from_value("18446744073709551616", &here())), "number is too large");
    assert_eq!(message_of(u64::from_value("99999999999999999999999999999999999999999", &here())), "number is too large");
    assert_eq!(message_of(i8::from_value("128", &here())), "number is too large");
    assert_eq!(message_of(i64::from_value("-9223372036854775809", &here())), "number is too small");
    assert_eq!(message_of(i16::from_value("-99999999999999999999999999999999999999999", &here())), "number is too small");
}

#[test]
fn numbers_with_invalid_digits() {
    for text in ["+", "-", "a", "1a", "1 ", " 1", "1.0", "--1", "+-1", "1_000", "0x10", "١"] {
        assert_eq!(
            message_of(i32::from_value(text, &here())),
            "expected a number, found an invalid digit",
            "{text}"
        );
    }
    assert_eq!(message_of(u32::from_value("-1", &here())), "expected a number, found an invalid digit");
    assert_eq!(message_of(u8::from_value("-0", &here())), "expected a number, found an invalid digit");
}

#[test]
fn the_first_fault_from_the_left_decides() {
    assert_eq!(to_number("999x", false, 0, 255), Err(NumberFault::TooLarge));
    assert_eq!(to_number("25x", false, 0, 255), Err(NumberFault::InvalidDigit));
    assert_eq!(to_number("x999", false, 0, 255), Err(NumberFault::InvalidDigit));
    assert_eq!(to_number("-999x", true, -128, 127), Err(NumberFault::TooSmall));
    assert_eq!(to_number("-12", true, -128, 127), Ok(-12));
    assert_eq!(to_number("", true, -128, 127), Err(NumberFault::Empty));
}

#[test]
fn number_faults_have_distinct_messages() {
    let faults = [
        NumberFault::Empty,
        NumberFault::InvalidDigit,
        NumberFault::TooLarge,
        NumberFault::TooSmall,
        NumberFault::Zero,
    ];
    for (i, a) in faults.iter().enumerate() {
        for b in &faults[i + 1..] {
            assert_ne!(a.describe(), b.describe());
        }
    }
}

#[test]
fn integer_ranges() {
    assert_eq!(u8::range(), (false, 0, 255));
    assert_eq!(i8::range(), (true, -128, 127));
    assert_eq!(u64::range(), (false, 0, u64::MAX as i128));
    assert_eq!(i64::range(), (true, i64::MIN as i128, i64::MAX as i128));
    assert_eq!(u16::narrow(513), 513);
    assert_eq!(i32::narrow(-5), -5);
    assert!(0u32.is_zero());
    assert!(!1i64.is_zero());
}

#[test]
fn non_zero_numbers() {
    assert!(NonZero::new(0u32).is_none());
    assert_eq!(NonZero::new(5i16).unwrap().get(), 5);
    assert_eq!(NonZero::<i32>::from_value("-4", &here()).unwrap().get(), -4);
    assert_eq!(message_of(NonZero::<i32>::from_value("+0", &here())), "number must not be zero");
    assert_eq!(message_of(NonZero::<i32>::from_value("", &here())), "expected a number, found an empty value");
    assert_eq!(message_of(NonZero::<u8>::from_value("300", &here())), "number is too large");
}

#[test]
fn values_from_attributes() {
    let found = read("<a n='12' flag empty=''/>");
    assert_eq!(u32::from_attribute(&found.attributes[0]).unwrap(), 12);
    assert_eq!(String::from_attribute(&found.attributes[0]).unwrap(), "12");
    let error = u32::from_attribute(&found.attributes[1]).unwrap_err();
    assert_eq!(error.message, "expected non-empty value for 'flag'");
    assert_eq!(error.position.char, 14);
    let error = u32::from_attribute(&found.attributes[2]).unwrap_err();
    assert_eq!(error.message, "expected a number, found an empty value");
    assert_eq!(error.position.char, 23);
    assert_eq!(String::from_attribute(&found.attributes[2]).unwrap(), "");
}

#[test]
fn integer_extraction_from_attributes() {
    let found = read("<a empty=\"\" word=\"abc\" big=\"300\" low=\"-200\" zero=\"0\"/>");
    assert_eq!(message_of(found.required::<u8>("empty")), "expected a number, found an empty value");
    assert_eq!(message_of(found.required::<u8>("word")), "expected a number, found an invalid digit");
    assert_eq!(message_of(found.required::<u8>("big")), "number is too large");
    assert_eq!(message_of(found.required::<i8>("low")), "number is too small");
    assert_eq!(found.required::<u8>("zero").unwrap(), 0);
    assert_eq!(message_of(found.required::<NonZero<u8>>("zero")), "number must not be zero");
}

#[test]
fn required_optional_and_presence() {
    let found = read("<a\n name='x' flag n='7'>text</a>");
    assert_eq!(found.required::<String>("name").unwrap(), "x");
    assert_eq!(found.required::<u8>("n").unwrap(), 7);
    assert_eq!(found.optional::<String>("name").unwrap().as_deref(), Some("x"));
    assert_eq!(found.optional::<String>("other").unwrap(), None);
    assert!(found.presence("name"));
    assert!(found.presence("flag"));
    assert!(!found.presence("other"));
    assert!(!found.presence("nam"));

    let error = found.required::<String>("other").unwrap_err();
    assert_eq!(error.message, "expected 'other' attribute");
    assert_eq!((error.position.line, error.position.char), (1, 21));

    let error = found.required::<String>("flag").unwrap_err();
    assert_eq!(error.message, "expected non-empty value for 'flag'");
    assert_eq!((error.position.line, error.position.char), (1, 14));

    let error = found.optional::<String>("flag").unwrap_err();
    assert_eq!(error.message, "expected non-empty value for 'flag'");

    let error = found.optional::<u8>("name").unwrap_err();
    assert_eq!(error.message, "expected a number, found an invalid digit");
    assert_eq!((error.position.line, error.position.char), (1, 9));
}

#[test]
fn attribute_index_finds_names() {
    let found = read("<a x='1' y z=''/>");
    assert_eq!(found.attribute_index("x"), Some(0));
    assert_eq!(found.attribute_index("y"), Some(1));
    assert_eq!(found.attribute_index("z"), Some(2));
    assert_eq!(found.attribute_index("w"), None);
    assert_eq!(found.attribute_index(""), None);
}

#[test]
fn children_in_document_order() {
    let found = read("<a><x>1</x><y>2</y><x>3</x></a>");
    let values = found.collect_children::<u32>("x").unwrap();
    assert_eq!(values, vec![1, 3]);
    let values = found.collect_children::<String>("y").unwrap();
    assert_eq!(values, vec!["2"]);
    assert!(found.collect_children::<u32>("z").unwrap().is_empty());
    let named = found.children_named("x");
    assert_eq!(named.len(), 2);
    assert_eq!(named[0].position.char, 6);
    assert_eq!(named[1].position.char, 22);
}

#[test]
fn children_one_by_one_or_up_to_the_first_failure() {
    let found = read("<a><x>1</x><x>two</x><x>3</x><x>-4</x></a>");
    let results = found.children::<u32>("x");
    assert_eq!(results.len(), 4);
    assert_eq!(*results[0].as_ref().unwrap(), 1);
    assert_eq!(results[1].as_ref().unwrap_err().message, "expected a number, found an invalid digit");
    assert_eq!(results[1].as_ref().unwrap_err().position.char, 14);
    assert_eq!(*results[2].as_ref().unwrap(), 3);
    assert_eq!(results[3].as_ref().unwrap_err().message, "expected a number, found an invalid digit");

    let error = found.collect_children::<u32>("x").unwrap_err();
    assert_eq!(error.message, "expected a number, found an invalid digit");
    assert_eq!(error.position.char, 14);
}

#[test]
fn single_children() {
    let found = read("<a><n>5</n><n>6</n><e/><t>a<b/></t></a>");
    assert_eq!(found.child::<u8>("n").unwrap(), 5);
    assert_eq!(found.optional_child::<u8>("n").unwrap(), Some(5));
    assert_eq!(found.optional_child::<u8>("m").unwrap(), None);

    let error = found.child::<u8>("m").unwrap_err();
    assert_eq!(error.message, "expected 'm' element");
    assert_eq!(error.position.char, 3);

    let error = found.child::<String>("e").unwrap_err();
    assert_eq!(error.message, "expected text content");
    assert_eq!(error.position.char, 23);

    let error = found.optional_child::<String>("t").unwrap_err();
    assert_eq!(error.message, "expected text content");
    assert_eq!(error.position.char, 26);
}

#[test]
fn only_text_is_the_single_text() {
    assert_eq!(read("<a>text</a>").only_text(), Some("text"));
    assert_eq!(read("<a> text </a>").only_text(), Some("text "));
    assert_eq!(read("<a></a>").only_text(), None);
    assert_eq!(read("<a/>").only_text(), None);
    assert_eq!(read("<a><b/></a>").only_text(), None);
    assert_eq!(read("<a>x<b/></a>").only_text(), None);
    assert_eq!(String::from_element(&read("<a>text</a>")).unwrap(), "text");
}

#[test]
fn root_of_a_document() {
    let found = root("doc.xml", "\n <config a='1'/>", "config").unwrap();
    assert_eq!(found.name, "config");
    assert_eq!(found.attributes.len(), 1);

    for text in ["", "  \n", "text", "<other/>", "text <config/>"] {
        let error = root("doc.xml", text, "config").unwrap_err();
        assert_eq!(error.message, "expected 'config' element", "{text:?}");
        assert_eq!((error.position.line, error.position.char), (0, 0), "{text:?}");
        assert_eq!(error.position.src, text);
    }

    let error = root("doc.xml", "<config>", "config").unwrap_err();
    assert_eq!(error.message, "missing closing tag");
    assert_eq!(error.position.char, 8);
}

#[test]
fn errors_are_shown_below_their_line() {
    let mut parser = Parser::new("dir/doc.xml", "<a>\n  <b c=>\n</a>");
    let error = element(&mut parser).unwrap().unwrap_err();
    let style = Style { emphasis: "[", plain: "]" };
    assert_eq!(
        error.render_with(&style),
        "[Error in 'dir/doc.xml':]\n<a>\n  <b c=>\n       ^\n[expected attribute value]\n</a>\n"
    );
    assert_eq!(
        error.render(),
        "\u{1b}[1;31mError in 'dir/doc.xml':\u{1b}[1;39m\n<a>\n  <b c=>\n       ^\n\u{1b}[1;31mexpected attribute value\u{1b}[1;39m\n</a>\n"
    );
    assert_eq!(error.render(), error.render());
}

#[test]
fn short_messages_end_at_the_column() {
    let style = Style { emphasis: "", plain: "" };
    let error = Position { path: "p", src: "0123456789\nnext\n", line: 0, char: 8 }.error_str("bad");
    assert_eq!(error.render_with(&style), "Error in 'p':\n0123456789\n        ^\n     bad\nnext\n\n");
    let error = Position { path: "p", src: "ab", line: 0, char: 3 }.error_str("bad");
    assert_eq!(error.render_with(&style), "Error in 'p':\nab\n   ^\nbad\n");
    let error = Position { path: "p", src: "ab", line: 0, char: 4 }.error_str("bäd");
    assert_eq!(error.render_with(&style), "Error in 'p':\nab\n    ^\nbäd\n");
    let error = Position { path: "p", src: "ab", line: 0, char: 5 }.error_str("bäd");
    assert_eq!(error.render_with(&style), "Error in 'p':\nab\n     ^\n bäd\n");
}

#[test]
fn errors_on_other_lines_and_beyond_the_text() {
    let style = Style::terminal();
    assert_eq!(style.emphasis, "\u{1b}[1;31m");
    assert_eq!(style.plain, "\u{1b}[1;39m");
    let style = Style { emphasis: "<", plain: ">" };
    let error = Position { path: "p", src: "a\nb\nc", line: 2, char: 0 }.error_str("m");
    assert_eq!(error.render_with(&style), "<Error in 'p':>\na\nb\nc\n^\n<m>\n");
    let error = Position { path: "p", src: "a\nb", line: 7, char: 0 }.error_str("m");
    assert_eq!(error.render_with(&style), "<Error in 'p':>\na\nb\n");
    let error = Position { path: "p", src: "", line: 0, char: 0 }.error_str("m");
    assert_eq!(error.render_with(&style), "<Error in 'p':>\n\n^\n<m>\n");
}
