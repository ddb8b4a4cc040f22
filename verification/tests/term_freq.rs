use term_index::index::TermFreqIndex;
use term_index::table::Table;
use term_index::term_freq::TermFreq;
use term_index::text::chars_of;

fn profile(text: &str) -> TermFreq {
    TermFreq::of_text(&chars_of(text))
}

#[test]
fn hello_hello_world_counts_two_and_one() {
    let tf = profile("Hello Hello World");
    assert_eq!(tf.len(), 2);
    assert_eq!(tf.count("HELLO"), 2);
    assert_eq!(tf.count("WORLD"), 1);
    assert_eq!(tf.count("Hello"), 0);
    assert_eq!(
        tf.to_counts(),
        vec![("HELLO".to_string(), 2), ("WORLD".to_string(), 1)]
    );
}

#[test]
fn world_wide_web_counts_one_each() {
    let tf = profile("World Wide Web");
    assert_eq!(
        tf.to_counts(),
        vec![("WORLD".to_string(), 1), ("WIDE".to_string(), 1), ("WEB".to_string(), 1)]
    );
}

#[test]
fn profile_of_nothing_is_empty() {
    assert_eq!(profile("").len(), 0);
    assert_eq!(profile("  \n ").len(), 0);
    assert_eq!(TermFreq::new().len(), 0);
    assert_eq!(TermFreq::new().count("X"), 0);
}

#[test]
fn every_listed_count_is_positive_and_sums_to_the_token_count() {
    let tf = profile("a b a c b a 1 2 1 ! !");
    let counts = tf.to_counts();
    assert!(counts.iter().all(|(_, n)| *n > 0));
    assert_eq!(counts.iter().map(|(_, n)| *n).sum::<u64>(), 11);
    assert_eq!(tf.count("A"), 3);
    assert_eq!(tf.count("B"), 2);
    assert_eq!(tf.count("C"), 1);
    assert_eq!(tf.count("1"), 2);
    assert_eq!(tf.count("2"), 1);
    assert_eq!(tf.count("!"), 2);
}

#[test]
fn from_terms_counts_as_given() {
    let terms = vec!["x".to_string(), "X".to_string(), "x".to_string()];
    let tf = TermFreq::from_terms(&terms);
    assert_eq!(tf.count("x"), 2);
    assert_eq!(tf.count("X"), 1);
    assert_eq!(tf.term_at(0), "x");
    assert_eq!(tf.count_at(0), 2);
    assert_eq!(tf.term_at(1), "X");
    assert_eq!(tf.count_at(1), 1);
}

#[test]
fn from_counts_keeps_the_last_listing() {
    let entries = vec![("A".to_string(), 1), ("B".to_string(), 0), ("A".to_string(), 7)];
    let tf = TermFreq::from_counts(&entries);
    assert_eq!(tf.len(), 2);
    assert_eq!(tf.count("A"), 7);
    assert_eq!(tf.count("B"), 0);
}

#[test]
fn index_insert_overwrites_without_merging() {
    let mut index = TermFreqIndex::new();
    assert_eq!(index.len(), 0);
    index.insert("doc".to_string(), profile("one two"));
    index.insert("other".to_string(), profile("three"));
    index.insert("doc".to_string(), profile("four four"));
    assert_eq!(index.len(), 2);
    let doc = index.get("doc").unwrap();
    assert_eq!(doc.count("ONE"), 0);
    assert_eq!(doc.count("TWO"), 0);
    assert_eq!(doc.count("FOUR"), 2);
    assert_eq!(index.get("other").unwrap().count("THREE"), 1);
    assert!(index.get("missing").is_none());
    assert!(index.contains("doc"));
    assert!(!index.contains("DOC"));
    assert_eq!(index.doc_at(0), "doc");
    assert_eq!(index.doc_at(1), "other");
    assert_eq!(index.profile_at(1).count("THREE"), 1);
}

#[test]
fn index_entries_round_trip() {
    let mut index = TermFreqIndex::new();
    index.insert("b".to_string(), profile("x y x"));
    index.insert("a".to_string(), profile("z"));
    let entries = index.to_entries();
    assert_eq!(
        entries,
        vec![
            ("b".to_string(), vec![("X".to_string(), 2), ("Y".to_string(), 1)]),
            ("a".to_string(), vec![("Z".to_string(), 1)]),
        ]
    );
    let again = TermFreqIndex::from_entries(&entries);
    assert_eq!(again.to_entries(), entries);
}

#[test]
fn table_keeps_first_order_and_last_value() {
    let mut table: Table<u32> = Table::new();
    assert_eq!(table.len(), 0);
    table.insert("k1".to_string(), 1);
    table.insert("k2".to_string(), 2);
    table.insert("k1".to_string(), 3);
    assert_eq!(table.len(), 2);
    assert_eq!(table.find("k1"), Some(0));
    assert_eq!(table.find("k2"), Some(1));
    assert_eq!(table.find("k3"), None);
    assert_eq!(table.get("k1"), Some(&3));
    assert_eq!(table.get("k2"), Some(&2));
    assert_eq!(table.get("k"), None);
    assert_eq!(table.key_at(1), "k2");
    assert_eq!(*table.value_at(0), 3);
}

#[test]
fn a_non_latin_document_is_counted_under_its_upper_case_forms() {
    let tf = profile("ж");
    assert_eq!(tf.to_counts(), vec![("Ж".to_string(), 1)]);
    let tf = profile("Привет привет ПРИВЕТ мир");
    assert_eq!(tf.count("ПРИВЕТ"), 3);
    assert_eq!(tf.count("МИР"), 1);
    assert_eq!(tf.count("привет"), 0);
    assert_eq!(tf.len(), 2);
}

#[test]
fn profiles_are_the_same_whatever_the_order() {
    let one = profile("a b a c");
    let two = profile("c a b a");
    assert!(one.same_as(&two));
    assert!(two.same_as(&one));
    assert!(one.same_as(&one));
    assert!(TermFreq::new().same_as(&TermFreq::new()));
}

#[test]
fn profiles_differ_by_a_term_or_a_count() {
    let one = profile("a b a c");
    assert!(!one.same_as(&profile("a b c")));
    assert!(!one.same_as(&profile("a b a")));
    assert!(!one.same_as(&profile("a b a d")));
    assert!(!one.same_as(&profile("a b a c d")));
    assert!(!one.same_as(&TermFreq::new()));
    assert!(!TermFreq::new().same_as(&one));
}

#[test]
fn indexes_are_the_same_whatever_the_order() {
    let mut one = TermFreqIndex::new();
    one.insert("x".to_string(), profile("a b"));
    one.insert("y".to_string(), profile("c"));
    let mut two = TermFreqIndex::new();
    two.insert("y".to_string(), profile("c"));
    two.insert("x".to_string(), profile("b a"));
    assert!(one.same_as(&two));
    assert!(two.same_as(&one));
    assert!(TermFreqIndex::new().same_as(&TermFreqIndex::new()));
}

#[test]
fn indexes_differ_by_a_document_or_a_profile() {
    let mut one = TermFreqIndex::new();
    one.insert("x".to_string(), profile("a b"));
    one.insert("y".to_string(), profile("c"));
    let mut other_profile = TermFreqIndex::new();
    other_profile.insert("x".to_string(), profile("a b b"));
    other_profile.insert("y".to_string(), profile("c"));
    assert!(!one.same_as(&other_profile));
    let mut other_doc = TermFreqIndex::new();
    other_doc.insert("x".to_string(), profile("a b"));
    other_doc.insert("z".to_string(), profile("c"));
    assert!(!one.same_as(&other_doc));
    let mut fewer = TermFreqIndex::new();
    fewer.insert("x".to_string(), profile("a b"));
    assert!(!one.same_as(&fewer));
    assert!(!fewer.same_as(&one));
}
