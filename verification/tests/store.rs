use term_index::index::TermFreqIndex;
use term_index::store::{load, save, save_list};
use term_index::term_freq::TermFreq;
use term_index::text::chars_of;

fn counted(text: &str) -> TermFreq {
    TermFreq::of_text(&chars_of(text))
}

#[test]
fn save_writes_an_object_of_objects() {
    let mut index = TermFreqIndex::new();
    index.insert("doc1".to_string(), counted("Hello Hello World"));
    let bytes = save(&index).unwrap();
    assert_eq!(String::from_utf8(bytes).unwrap(), r#"{"doc1":{"HELLO":2,"WORLD":1}}"#);
}

#[test]
fn save_of_an_empty_index_is_an_empty_object() {
    assert_eq!(save(&TermFreqIndex::new()).unwrap(), b"{}".to_vec());
}

#[test]
fn save_does_not_depend_on_insertion_order() {
    let mut one = TermFreqIndex::new();
    one.insert("b".to_string(), counted("y x"));
    one.insert("a".to_string(), counted("z"));
    let mut two = TermFreqIndex::new();
    two.insert("a".to_string(), counted("z"));
    two.insert("b".to_string(), counted("x y"));
    assert_eq!(save(&one).unwrap(), save(&two).unwrap());
    assert_eq!(
        String::from_utf8(save(&one).unwrap()).unwrap(),
        r#"{"a":{"Z":1},"b":{"X":1,"Y":1}}"#
    );
}

#[test]
fn save_escapes_what_json_must_escape() {
    let mut index = TermFreqIndex::new();
    index.insert("dir\\file \"x\"".to_string(), counted("\""));
    let text = String::from_utf8(save(&index).unwrap()).unwrap();
    assert_eq!(text, r#"{"dir\\file \"x\"":{"\"":1}}"#);
    let back = load(text.as_bytes()).unwrap();
    assert_eq!(back.get("dir\\file \"x\"").unwrap().count("\""), 1);
}

#[test]
fn load_reads_what_save_wrote() {
    let mut index = TermFreqIndex::new();
    index.insert("doc1".to_string(), counted("Hello Hello World"));
    index.insert("doc2".to_string(), counted("World Wide Web"));
    let bytes = save(&index).unwrap();
    let back = load(&bytes).unwrap();
    assert_eq!(back.len(), 2);
    let doc1 = back.get("doc1").unwrap();
    assert_eq!(doc1.len(), 2);
    assert_eq!(doc1.count("HELLO"), 2);
    assert_eq!(doc1.count("WORLD"), 1);
    let doc2 = back.get("doc2").unwrap();
    assert_eq!(doc2.len(), 3);
    assert_eq!(doc2.count("WORLD"), 1);
    assert_eq!(doc2.count("WIDE"), 1);
    assert_eq!(doc2.count("WEB"), 1);
    assert_eq!(save(&back).unwrap(), bytes);
}

#[test]
fn load_takes_keys_in_any_order_and_white_space() {
    let text = " { \"z\" : { \"B\" : 2 , \"A\" : 1 } ,\n \"y\" : { } } ";
    let index = load(text.as_bytes()).unwrap();
    assert_eq!(index.len(), 2);
    assert_eq!(index.get("z").unwrap().count("A"), 1);
    assert_eq!(index.get("z").unwrap().count("B"), 2);
    assert_eq!(index.get("y").unwrap().len(), 0);
    assert_eq!(index.doc_at(0), "y");
    assert_eq!(index.doc_at(1), "z");
}

#[test]
fn load_accepts_a_count_of_zero() {
    let index = load(br#"{"d":{"T":0}}"#).unwrap();
    assert_eq!(index.get("d").unwrap().len(), 1);
    assert_eq!(index.get("d").unwrap().count("T"), 0);
}

#[test]
fn load_keeps_the_last_of_repeated_keys() {
    let index = load(br#"{"d":{"T":1,"T":5},"d":{"T":9,"U":2}}"#).unwrap();
    assert_eq!(index.len(), 1);
    assert_eq!(index.get("d").unwrap().count("T"), 9);
    assert_eq!(index.get("d").unwrap().count("U"), 2);
}

#[test]
fn load_refuses_text_that_is_not_json() {
    let error = load(b"{\"doc1\": {\"HELLO\": 2,").unwrap_err();
    assert_eq!(error.line, 1);
    assert_eq!(error.column, 21);
    assert!(error.message.starts_with("EOF while parsing"));
    assert!(load(b"").is_err());
    assert!(load(b"not json").is_err());
    assert!(load(b"{\"a\":{}} trailing").is_err());
    assert!(load(&[0xff, 0xfe, 0x00]).is_err());
}

#[test]
fn load_refuses_a_wrong_shape() {
    assert!(load(b"[]").is_err());
    assert!(load(b"null").is_err());
    assert!(load(b"3").is_err());
    assert!(load(br#"{"doc":[1,2]}"#).is_err());
    assert!(load(br#"{"doc":3}"#).is_err());
    assert!(load(br#"{"doc":{"T":{"deep":1}}}"#).is_err());
}

#[test]
fn load_refuses_a_count_that_is_no_unsigned_integer() {
    assert!(load(br#"{"doc":{"T":-1}}"#).is_err());
    assert!(load(br#"{"doc":{"T":1.5}}"#).is_err());
    assert!(load(br#"{"doc":{"T":"1"}}"#).is_err());
    assert!(load(br#"{"doc":{"T":null}}"#).is_err());
    assert!(load(br#"{"doc":{"T":true}}"#).is_err());
    assert!(load(br#"{"doc":{"T":99999999999999999999999999}}"#).is_err());
}

#[test]
fn load_refuses_a_key_that_is_no_string() {
    assert!(load(br#"{1:{"T":1}}"#).is_err());
    assert!(load(br#"{"doc":{1:1}}"#).is_err());
}

#[test]
fn load_reports_where_a_wrong_shape_was_found() {
    let error = load(b"{\n  \"doc\": {\"T\": -1}\n}").unwrap_err();
    assert_eq!(error.line, 2);
    assert!(error.column > 0);
    assert!(error.message.contains("invalid value"));
}

#[test]
fn save_list_writes_a_json_array() {
    let items = vec!["a".to_string(), "b \"c\"".to_string()];
    assert_eq!(save_list(&items).unwrap(), r#"["a","b \"c\""]"#);
    assert_eq!(save_list(&Vec::new()).unwrap(), "[]");
}

#[test]
fn what_save_wrote_load_reads_as_the_same_index() {
    let mut index = TermFreqIndex::new();
    index.insert("corpus/a".to_string(), counted("one two two three three three"));
    index.insert("corpus/b \"quoted\"".to_string(), counted("привет, мир! 42"));
    index.insert("corpus/empty".to_string(), counted(""));
    index.insert("corpus/ünï".to_string(), counted("straße ﬁn"));
    let bytes = save(&index).unwrap();
    let back = load(&bytes).unwrap();
    assert!(back.same_as(&index));
    assert!(index.same_as(&back));
    assert_eq!(save(&back).unwrap(), bytes);
}

#[test]
fn an_empty_index_is_read_back_empty() {
    let bytes = save(&TermFreqIndex::new()).unwrap();
    assert!(load(&bytes).unwrap().same_as(&TermFreqIndex::new()));
}
