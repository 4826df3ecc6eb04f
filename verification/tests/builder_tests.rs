use pagefmt::builder::{parse_characters, parse_usize};
use pagefmt::events::{Attribute, BuildError, ParseEvent};
use pagefmt::page::Page;

fn attr(name: &str, value: &str) -> Attribute {
    Attribute { name: name.to_string(), value: value.to_string() }
}

fn start(name: &str, attrs: Vec<Attribute>) -> ParseEvent {
    ParseEvent::StartTag { name: name.to_string(), attributes: attrs }
}

fn end(name: &str) -> ParseEvent {
    ParseEvent::EndTag { name: name.to_string() }
}

fn chars(text: &str) -> ParseEvent {
    ParseEvent::Characters { text: text.to_string() }
}

fn simple_doc() -> Vec<ParseEvent> {
    vec![
        start("Page", vec![attr("title", "T")]),
        start("Section", vec![attr("number", "1"), attr("name", "S")]),
        start("Text", vec![]),
        chars("hello"),
        end("Text"),
        end("Section"),
        end("Page"),
    ]
}

#[test]
fn simple_document_builds_and_renders() {
    let page = Page::from_events(simple_doc()).unwrap();
    let expected = format!("{}# T\n\n1. S\n----\nhello\n", " ".repeat(24));
    assert_eq!(page.to_string(0), expected);
}

#[test]
fn unordered_list_in_section_builds_and_renders() {
    let events = vec![
        start("Page", vec![attr("title", "T")]),
        start("Section", vec![attr("number", "1"), attr("name", "S")]),
        start("List", vec![attr("type", "Unordered")]),
        start("Text", vec![]),
        chars("a"),
        end("Text"),
        start("Text", vec![]),
        chars("b"),
        end("Text"),
        end("List"),
        end("Section"),
        end("Page"),
    ];
    let page = Page::from_events(events).unwrap();
    let expected = format!("{}# T\n\n1. S\n----\n- a\n- b\n", " ".repeat(24));
    assert_eq!(page.to_string(0), expected);
}

#[test]
fn two_consecutive_page_starts_are_rejected() {
    let events = vec![
        start("Page", vec![attr("title", "T")]),
        start("Page", vec![attr("title", "T")]),
    ];
    assert_eq!(Page::from_events(events).unwrap_err(), BuildError::StructureError);
}

#[test]
fn circular_list_kind_is_rejected() {
    let events = vec![
        start("Page", vec![attr("title", "T")]),
        start("Section", vec![attr("number", "1"), attr("name", "S")]),
        start("List", vec![attr("type", "Circular")]),
    ];
    assert_eq!(Page::from_events(events).unwrap_err(), BuildError::InvalidEnumValueError);
}

#[test]
fn missing_page_title_is_rejected() {
    assert_eq!(
        Page::from_events(vec![start("Page", vec![])]).unwrap_err(),
        BuildError::MissingAttributeError
    );
}

#[test]
fn missing_list_kind_is_rejected() {
    let events = vec![start("Page", vec![attr("title", "T")]), start("List", vec![])];
    assert_eq!(Page::from_events(events).unwrap_err(), BuildError::MissingAttributeError);
}

#[test]
fn non_numeric_section_number_is_rejected() {
    let events = vec![
        start("Page", vec![attr("title", "T")]),
        start("Section", vec![attr("number", "abc"), attr("name", "S")]),
    ];
    assert_eq!(Page::from_events(events).unwrap_err(), BuildError::AttributeFormatError);
}

#[test]
fn unknown_tag_is_rejected() {
    let events = vec![start("Page", vec![attr("title", "T")]), start("Banner", vec![])];
    assert_eq!(Page::from_events(events).unwrap_err(), BuildError::UnknownTagError);
}

#[test]
fn source_error_aborts_the_build() {
    let events = vec![start("Page", vec![attr("title", "T")]), ParseEvent::ParseError];
    assert_eq!(Page::from_events(events).unwrap_err(), BuildError::SourceParseError);
}

#[test]
fn nested_sections_are_rejected() {
    let events = vec![
        start("Page", vec![attr("title", "T")]),
        start("Section", vec![attr("number", "1"), attr("name", "S")]),
        start("Section", vec![attr("number", "2"), attr("name", "U")]),
    ];
    assert_eq!(Page::from_events(events).unwrap_err(), BuildError::StructureError);
}

#[test]
fn nested_text_is_rejected() {
    let events = vec![
        start("Page", vec![attr("title", "T")]),
        start("Section", vec![attr("number", "1"), attr("name", "S")]),
        start("Text", vec![]),
        start("Text", vec![]),
    ];
    assert_eq!(Page::from_events(events).unwrap_err(), BuildError::StructureError);
}

#[test]
fn empty_stream_yields_no_page() {
    assert_eq!(Page::from_events(vec![]).unwrap_err(), BuildError::StructureError);
}

#[test]
fn unclosed_section_is_rejected() {
    let events = vec![
        start("Page", vec![attr("title", "T")]),
        start("Section", vec![attr("number", "1"), attr("name", "S")]),
        end("Page"),
    ];
    assert_eq!(Page::from_events(events).unwrap_err(), BuildError::StructureError);
}

#[test]
fn unclosed_list_is_rejected() {
    let events = vec![
        start("Page", vec![attr("title", "T")]),
        start("Section", vec![attr("number", "1"), attr("name", "S")]),
        start("List", vec![attr("type", "Ordered")]),
        end("Section"),
        end("Page"),
    ];
    assert_eq!(Page::from_events(events).unwrap_err(), BuildError::StructureError);
}

#[test]
fn list_close_without_open_is_rejected() {
    let events = vec![
        start("Page", vec![attr("title", "T")]),
        start("Section", vec![attr("number", "1"), attr("name", "S")]),
        end("List"),
    ];
    assert_eq!(Page::from_events(events).unwrap_err(), BuildError::StructureError);
}

#[test]
fn text_closed_outside_section_is_rejected() {
    let events = vec![
        start("Page", vec![attr("title", "T")]),
        start("Text", vec![]),
        chars("stray"),
        end("Text"),
    ];
    assert_eq!(Page::from_events(events).unwrap_err(), BuildError::StructureError);
}

#[test]
fn characters_between_tags_are_ignored() {
    let mut events = simple_doc();
    events.insert(1, chars("   "));
    let page = Page::from_events(events).unwrap();
    let expected = format!("{}# T\n\n1. S\n----\nhello\n", " ".repeat(24));
    assert_eq!(page.to_string(0), expected);
}

#[test]
fn repeated_attribute_keeps_the_last_value() {
    let events = vec![start("Page", vec![attr("title", "A"), attr("title", "B")]), end("Page")];
    let page = Page::from_events(events).unwrap();
    assert_eq!(page.name, "B");
}

#[test]
fn br_inside_section_becomes_line_break() {
    let events = vec![
        start("Page", vec![attr("title", "T")]),
        start("Section", vec![attr("number", "1"), attr("name", "S")]),
        start("br", vec![]),
        end("br"),
        end("Section"),
        end("Page"),
    ];
    let page = Page::from_events(events).unwrap();
    let expected = format!("{}# T\n\n1. S\n----\n\n", " ".repeat(24));
    assert_eq!(page.to_string(0), expected);
}

#[test]
fn section_number_may_carry_a_plus_sign() {
    let events = vec![
        start("Page", vec![attr("title", "T")]),
        start("Section", vec![attr("number", "+7"), attr("name", "S")]),
        end("Section"),
        end("Page"),
    ];
    let page = Page::from_events(events).unwrap();
    assert_eq!(page.sections[0].section_num, 7);
}

#[test]
fn parse_characters_trims_and_joins() {
    assert_eq!(parse_characters("  hello \r\n world "), "helloworld");
}

#[test]
fn parse_characters_collapses_blank_lines() {
    assert_eq!(parse_characters("a\n   \nb"), "a\nb");
    assert_eq!(parse_characters("a\n\nb"), "a\nb");
}

#[test]
fn parse_characters_of_whitespace_is_empty() {
    assert_eq!(parse_characters("  \n  "), "");
    assert_eq!(parse_characters(""), "");
}

#[test]
fn parse_usize_accepts_digits_and_plus() {
    assert_eq!(parse_usize(&"0".to_string()), Some(0));
    assert_eq!(parse_usize(&"42".to_string()), Some(42));
    assert_eq!(parse_usize(&"+42".to_string()), Some(42));
}

#[test]
fn parse_usize_rejects_junk() {
    assert_eq!(parse_usize(&"".to_string()), None);
    assert_eq!(parse_usize(&"+".to_string()), None);
    assert_eq!(parse_usize(&"-1".to_string()), None);
    assert_eq!(parse_usize(&"4 2".to_string()), None);
    assert_eq!(parse_usize(&"99999999999999999999999999999".to_string()), None);
}
