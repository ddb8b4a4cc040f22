use term_index::extract::{extract_from_steps, ExtractionError, XmlStep};
use xml::common::Position;
use xml::reader::{EventReader, XmlEvent};

fn steps_of(xml: &[u8]) -> Vec<XmlStep> {
    EventReader::new(xml)
        .into_iter()
        .map(|event| match event {
            Ok(XmlEvent::Characters(text)) => XmlStep::Text(text),
            Ok(_) => XmlStep::Markup,
            Err(err) => XmlStep::Fault {
                row: err.position().row,
                column: err.position().column,
                message: err.msg().to_string(),
            },
        })
        .collect()
}

fn extract_text(xml: &[u8]) -> Result<String, ExtractionError> {
    extract_from_steps(&steps_of(xml))
}

#[test]
fn text_of_one_element() {
    assert_eq!(extract_text(b"<doc>Hello Hello World</doc>").unwrap(), "Hello Hello World");
}

#[test]
fn fragments_are_joined_by_one_space() {
    let xml = b"<doc><t>Hello</t><t>World</t><x/><t>again</t></doc>";
    assert_eq!(extract_text(xml).unwrap(), "Hello World again");
}

#[test]
fn markup_is_dropped() {
    let xml =
        b"<?xml version=\"1.0\"?><!-- note --><doc id=\"7\"><b class=\"x\">bold</b> and plain</doc>";
    assert_eq!(extract_text(xml).unwrap(), "bold  and plain");
}

#[test]
fn entities_are_resolved() {
    assert_eq!(extract_text(b"<d>a &lt; b &amp; c &#38; d</d>").unwrap(), "a < b & c & d");
}

#[test]
fn a_document_without_text_gives_the_empty_string() {
    assert_eq!(extract_text(b"<doc/>").unwrap(), "");
    assert_eq!(extract_text(b"<doc><a/><b></b></doc>").unwrap(), "");
}

#[test]
fn a_malformed_document_is_reported_with_its_place() {
    let error = extract_text(b"<doc>\n  <open>text</close>\n</doc>").unwrap_err();
    assert_eq!(error.position, Some((1, 19)));
    assert!(error.message.contains("Unexpected closing tag"));
}

#[test]
fn an_unfinished_document_is_malformed() {
    let error = extract_text(b"<doc>Hello").unwrap_err();
    assert!(error.position.is_some());
    assert!(!error.message.is_empty());
    assert!(extract_text(b"").is_err());
    assert!(extract_text(b"plain text, no markup").is_err());
}

#[test]
fn steps_without_a_fault_give_the_joined_text() {
    let steps = vec![
        XmlStep::Markup,
        XmlStep::Text("one".to_string()),
        XmlStep::Markup,
        XmlStep::Markup,
        XmlStep::Text("two".to_string()),
        XmlStep::Text("".to_string()),
        XmlStep::Text("three".to_string()),
        XmlStep::Markup,
    ];
    assert_eq!(extract_from_steps(&steps).unwrap(), "one two  three");
}

#[test]
fn no_steps_give_the_empty_text() {
    assert_eq!(extract_from_steps(&Vec::new()).unwrap(), "");
    assert_eq!(extract_from_steps(&vec![XmlStep::Markup]).unwrap(), "");
    assert_eq!(extract_from_steps(&vec![XmlStep::Text("x".to_string())]).unwrap(), "x");
}

#[test]
fn the_first_fault_wins() {
    let steps = vec![
        XmlStep::Text("kept nowhere".to_string()),
        XmlStep::Fault { row: 3, column: 9, message: "first".to_string() },
        XmlStep::Text("after".to_string()),
        XmlStep::Fault { row: 4, column: 1, message: "second".to_string() },
    ];
    assert_eq!(
        extract_from_steps(&steps),
        Err(ExtractionError { position: Some((3, 9)), message: "first".to_string() })
    );
}
