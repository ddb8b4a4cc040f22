use term_index::extract::{extract_from_steps, XmlStep};
use term_index::index::TermFreqIndex;
use term_index::store::{load, save};
use term_index::term_freq::TermFreq;
use term_index::text::chars_of;
use term_index::walk::{Action, Entry, Event, Walk, WalkError};
use xml::common::Position;
use xml::reader::{EventReader, XmlEvent};

fn file(path: &str) -> Entry {
    Entry::File(path.to_string())
}

fn dir(path: &str) -> Entry {
    Entry::Directory(path.to_string())
}

fn read(path: &str) -> Action {
    Action::Read(path.to_string())
}

fn list(path: &str) -> Action {
    Action::List(path.to_string())
}

fn document(xml: &str) -> Event {
    let steps: Vec<XmlStep> = EventReader::new(xml.as_bytes())
        .into_iter()
        .map(|event| match event {
            Ok(XmlEvent::Characters(text)) => XmlStep::Text(text),
            Ok(_) => XmlStep::Markup,
            Err(err) => XmlStep::Fault {
                row: err.position().row,
                column: err.position().column,
                message: err.msg().to_string(),
            },
        })
        .collect();
    match extract_from_steps(&steps) {
        Ok(text) => Event::Text(text),
        Err(_) => Event::NoText,
    }
}

fn start(root: &str) -> Walk {
    let (walk, action) = Walk::start(root.to_string(), TermFreqIndex::new());
    assert_eq!(action, list(root));
    walk
}

#[test]
fn two_documents_give_two_profiles() {
    let mut walk = start("corpus");
    let action = walk.step(Event::Listed(vec![file("corpus/doc1"), file("corpus/doc2")]));
    assert_eq!(action, read("corpus/doc1"));
    let action = walk.step(document("<doc>Hello Hello World</doc>"));
    assert_eq!(action, read("corpus/doc2"));
    let action = walk.step(document("<doc>World Wide Web</doc>"));
    assert_eq!(action, Action::Finish);
    let index = walk.finish().unwrap();
    assert_eq!(index.len(), 2);
    let doc1 = index.get("corpus/doc1").unwrap();
    assert_eq!(doc1.to_counts(), vec![("HELLO".to_string(), 2), ("WORLD".to_string(), 1)]);
    let doc2 = index.get("corpus/doc2").unwrap();
    assert_eq!(
        doc2.to_counts(),
        vec![("WORLD".to_string(), 1), ("WIDE".to_string(), 1), ("WEB".to_string(), 1)]
    );

    let bytes = save(&index).unwrap();
    let back = load(&bytes).unwrap();
    assert_eq!(back.len(), 2);
    for doc in ["corpus/doc1", "corpus/doc2"] {
        let was = index.get(doc).unwrap();
        let is = back.get(doc).unwrap();
        assert_eq!(is.len(), was.len());
        for (term, count) in was.to_counts() {
            assert_eq!(is.count(&term), count);
        }
    }
}

#[test]
fn a_malformed_document_is_passed_over() {
    let mut walk = start("corpus");
    let listing = vec![file("corpus/doc1"), file("corpus/doc2"), file("corpus/doc3")];
    assert_eq!(walk.step(Event::Listed(listing)), read("corpus/doc1"));
    assert_eq!(walk.step(document("<doc>one</doc>")), read("corpus/doc2"));
    assert_eq!(walk.step(document("<doc>broken</dok>")), read("corpus/doc3"));
    assert_eq!(walk.step(document("<doc>three</doc>")), Action::Finish);
    let index = walk.finish().unwrap();
    assert_eq!(index.len(), 2);
    assert!(index.contains("corpus/doc1"));
    assert!(!index.contains("corpus/doc2"));
    assert!(index.contains("corpus/doc3"));
    assert_eq!(index.get("corpus/doc3").unwrap().count("THREE"), 1);
}

#[test]
fn an_unreadable_root_ends_the_walk() {
    let mut walk = start("missing");
    assert_eq!(walk.step(Event::ListFailed), Action::Abort(WalkError::DirectoryUnreadable));
    assert_eq!(walk.step(Event::ListFailed), Action::Abort(WalkError::DirectoryUnreadable));
    assert_eq!(walk.step(Event::NoText), Action::Abort(WalkError::DirectoryUnreadable));
    assert_eq!(walk.finish().err(), Some(WalkError::DirectoryUnreadable));
}

#[test]
fn an_empty_root_gives_an_empty_index() {
    let mut walk = start("empty");
    assert_eq!(walk.step(Event::Listed(Vec::new())), Action::Finish);
    assert_eq!(walk.step(Event::NoText), Action::Finish);
    assert_eq!(walk.finish().unwrap().len(), 0);
}

#[test]
fn directories_are_walked_depth_first() {
    let mut walk = start("r");
    let action = walk.step(Event::Listed(vec![file("r/a"), dir("r/sub"), file("r/z")]));
    assert_eq!(action, read("r/a"));
    assert_eq!(walk.step(Event::Text("a".to_string())), list("r/sub"));
    let action = walk.step(Event::Listed(vec![dir("r/sub/deep"), file("r/sub/b")]));
    assert_eq!(action, list("r/sub/deep"));
    assert_eq!(walk.step(Event::Listed(vec![file("r/sub/deep/c")])), read("r/sub/deep/c"));
    assert_eq!(walk.step(Event::Text("c".to_string())), read("r/sub/b"));
    assert_eq!(walk.step(Event::Text("b".to_string())), read("r/z"));
    assert_eq!(walk.step(Event::Text("z".to_string())), Action::Finish);
    let index = walk.finish().unwrap();
    let docs: Vec<String> = index.to_entries().into_iter().map(|(doc, _)| doc).collect();
    assert_eq!(docs, vec!["r/a", "r/sub/deep/c", "r/sub/b", "r/z"]);
}

#[test]
fn an_unreadable_subdirectory_ends_the_whole_walk() {
    let mut walk = start("r");
    assert_eq!(walk.step(Event::Listed(vec![file("r/a"), dir("r/sub"), file("r/z")])), read("r/a"));
    assert_eq!(walk.step(Event::Text("a".to_string())), list("r/sub"));
    assert_eq!(walk.step(Event::ListFailed), Action::Abort(WalkError::DirectoryUnreadable));
    assert_eq!(walk.finish().err(), Some(WalkError::DirectoryUnreadable));
}

#[test]
fn an_unreadable_entry_ends_the_walk_when_its_turn_comes() {
    let mut walk = start("r");
    let action = walk.step(Event::Listed(vec![file("r/a"), Entry::Unreadable, file("r/z")]));
    assert_eq!(action, read("r/a"));
    assert_eq!(
        walk.step(Event::Text("a".to_string())),
        Action::Abort(WalkError::EntryUnreadable)
    );
    assert_eq!(walk.finish().err(), Some(WalkError::EntryUnreadable));
}

#[test]
fn an_unreadable_first_entry_ends_the_walk_at_once() {
    let mut walk = start("r");
    assert_eq!(
        walk.step(Event::Listed(vec![Entry::Unreadable, file("r/a")])),
        Action::Abort(WalkError::EntryUnreadable)
    );
}

#[test]
fn an_answer_out_of_turn_ends_the_walk() {
    let mut walk = start("r");
    assert_eq!(walk.step(Event::Text("x".to_string())), Action::Abort(WalkError::OutOfTurn));
    assert_eq!(walk.finish().err(), Some(WalkError::OutOfTurn));

    let mut walk = start("r");
    assert_eq!(walk.step(Event::Listed(vec![file("r/a")])), read("r/a"));
    assert_eq!(walk.step(Event::Listed(Vec::new())), Action::Abort(WalkError::OutOfTurn));

    let mut walk = start("r");
    assert_eq!(walk.step(Event::Listed(vec![file("r/a")])), read("r/a"));
    assert_eq!(walk.step(Event::ListFailed), Action::Abort(WalkError::OutOfTurn));
}

#[test]
fn a_walk_left_half_way_has_no_index() {
    let mut walk = start("r");
    assert_eq!(walk.step(Event::Listed(vec![file("r/a"), file("r/b")])), read("r/a"));
    assert_eq!(walk.finish().err(), Some(WalkError::OutOfTurn));
    let walk = start("r");
    assert_eq!(walk.finish().err(), Some(WalkError::OutOfTurn));
}

#[test]
fn a_document_met_twice_keeps_its_last_profile() {
    let mut walk = start("r");
    assert_eq!(walk.step(Event::Listed(vec![file("r/a"), file("r/a")])), read("r/a"));
    assert_eq!(walk.step(Event::Text("first first".to_string())), read("r/a"));
    assert_eq!(walk.step(Event::Text("second".to_string())), Action::Finish);
    let index = walk.finish().unwrap();
    assert_eq!(index.len(), 1);
    assert_eq!(index.get("r/a").unwrap().count("FIRST"), 0);
    assert_eq!(index.get("r/a").unwrap().count("SECOND"), 1);
}

#[test]
fn a_walk_adds_to_the_index_it_was_given() {
    let mut index = TermFreqIndex::new();
    index.insert("old".to_string(), TermFreq::of_text(&chars_of("kept")));
    index.insert("r/a".to_string(), TermFreq::of_text(&chars_of("stale")));
    let (mut walk, _) = Walk::start("r".to_string(), index);
    assert_eq!(walk.step(Event::Listed(vec![file("r/a")])), read("r/a"));
    assert_eq!(walk.step(Event::Text("fresh".to_string())), Action::Finish);
    let index = walk.finish().unwrap();
    assert_eq!(index.len(), 2);
    assert_eq!(index.get("old").unwrap().count("KEPT"), 1);
    assert_eq!(index.get("r/a").unwrap().count("STALE"), 0);
    assert_eq!(index.get("r/a").unwrap().count("FRESH"), 1);
}
