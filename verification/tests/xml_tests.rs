use pagefmt::events::{Attribute, ParseEvent};
use pagefmt::page::Page;
use xml::reader::XmlEvent;
use xml::EventReader;

fn events_from_markup(markup: &str) -> Vec<ParseEvent> {
    let parser = EventReader::new(markup.as_bytes());
    let mut events = Vec::new();
    for e in parser {
        match e {
            Ok(XmlEvent::StartElement { name, attributes, .. }) => {
                let attrs = attributes
                    .iter()
                    .map(|a| Attribute {
                        name: a.name.local_name.clone(),
                        value: a.value.clone(),
                    })
                    .collect();
                events.push(ParseEvent::StartTag { name: name.local_name.clone(), attributes: attrs });
            }
            Ok(XmlEvent::EndElement { name }) => {
                events.push(ParseEvent::EndTag { name: name.local_name.clone() });
            }
            Ok(XmlEvent::Characters(text)) => {
                events.push(ParseEvent::Characters { text });
            }
            Err(_) => {
                events.push(ParseEvent::ParseError);
                break;
            }
            _ => {}
        }
    }
    events
}

#[test]
fn end_to_end_single_text_section() {
    let markup = r#"<Page title="T"><Section number="1" name="S"><Text>hello</Text></Section></Page>"#;
    let page = Page::from_events(events_from_markup(markup)).unwrap();
    let expected = format!("{}# T\n\n1. S\n----\nhello\n", " ".repeat(24));
    assert_eq!(page.to_string(0), expected);
}

#[test]
fn end_to_end_unordered_list() {
    let markup = r#"<Page title="T"><Section number="1" name="S"><List type="Unordered"><Text>a</Text><Text>b</Text></List></Section></Page>"#;
    let page = Page::from_events(events_from_markup(markup)).unwrap();
    let rendered = page.to_string(0);
    let expected = format!("{}# T\n\n1. S\n----\n- a\n- b\n", " ".repeat(24));
    assert_eq!(rendered, expected);
}

#[test]
fn end_to_end_malformed_markup_fails() {
    let markup = "<Page title=\"T\"><Section";
    let r = Page::from_events(events_from_markup(markup));
    assert!(r.is_err());
}
