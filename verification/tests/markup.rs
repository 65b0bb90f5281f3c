use git_manager_xml::parse::element;
use git_manager_xml::parser::Parser;
use git_manager_xml::tree::{Content, Element};

fn read<'a>(text: &'a str) -> Element<'a> {
    let mut parser = Parser::new("doc.xml", text);
    let found = element(&mut parser).unwrap().unwrap();
    assert!(parser.is_empty());
    found
}

fn assert_alike(first: &Element, second: &Element) {
    assert_eq!(first.name, second.name);
    assert_eq!(first.attributes.len(), second.attributes.len());
    for (a, b) in first.attributes.iter().zip(&second.attributes) {
        assert_eq!(a.name, b.name);
        assert_eq!(a.value, b.value);
    }
    assert_eq!(first.contents.len(), second.contents.len());
    for (a, b) in first.contents.iter().zip(&second.contents) {
        match (a, b) {
            (Content::Text(x), Content::Text(y)) => assert_eq!(x, y),
            (Content::Element(x), Content::Element(y)) => assert_alike(x, y),
            _ => panic!("a text and an element"),
        }
    }
}

#[test]
fn markup_of_elements() {
    assert_eq!(read("<a/>").to_markup(), "<a/>");
    assert_eq!(read("<a></a>").to_markup(), "<a/>");
    assert_eq!(read("<a  k = 'v'/>".replace(" = ", "=").as_str()).to_markup(), "<a k=\"v\"/>");
    assert_eq!(read("<a k='it\"s' flag\n j='\\\\'>  x <b/> y\n</a>").to_markup(), "<a k=\"it\\\"s\" flag j=\"\\\\\">x <b/>y\n</a>");
    assert_eq!(read("<a> <b> <c/> </b> </a>").to_markup(), "<a><b><c/></b></a>");
    let mut out = String::from("head:");
    read("<a>t</a>").write_markup(&mut out);
    assert_eq!(out, "head:<a>t</a>");
}

#[test]
fn what_was_read_comes_back_from_its_markup() {
    for text in [
        "<a/>",
        "<a k=\"v\"/>",
        "<a><b/></a>",
        "<a><x>1</x><y>2</y><x>3</x></a>",
        "<config  path='C:\\\\dir' quote='\"' single=\"'\" flag>\n  text with  spaces\n  <child a b c='d'>inner</child>\n  tail\n</config>",
        "<a one two three/>",
        "<a>text<b/>more<c>deep<d e='f'/></c></a>",
        "<a k=''></a>",
        "<a k='line\nbreak'>é<b/>ü</a>",
    ] {
        let first = read(text);
        let written = first.to_markup();
        let second = read(&written);
        assert_alike(&first, &second);
        assert_eq!(second.to_markup(), written, "{text}");
    }
}

#[test]
fn showing_an_error_twice_gives_the_same() {
    for text in ["<a></b>", "<a k=\"1\" k=\"2\"/>", "<a>text", "<a\n\n  b=>"] {
        let mut parser = Parser::new("doc.xml", text);
        let error = element(&mut parser).unwrap().unwrap_err();
        let first = error.render();
        let second = error.render();
        assert_eq!(first.as_bytes(), second.as_bytes());
        assert!(first.starts_with("\u{1b}[1;31mError in 'doc.xml':\u{1b}[1;39m\n"));
    }
}
