//! The durable form of the index: one JSON object keyed by document, each
//! value an object from term to count.
//!
//! Reading and writing JSON is the work of `serde_json`; what this module
//! proves is what is handed to it and what is made of its answers.

use crate::index::{distinct_documents, index_of, TermFreqIndex};
use std::collections::BTreeMap;
use vstd::prelude::*;

verus! {

/// The error type of `serde_json`, carried through as it is.
#[verifier::external_type_specification]
#[verifier::external_body]
pub struct ExJsonError(serde_json::Error);

/// What `serde_json` makes of a JSON text that is read as an object of
/// objects of unsigned counts: the documents in ascending order, each with its
/// terms in ascending order, or `None` where the text is not valid JSON of
/// that shape.
pub uninterp spec fn json_entries(bytes: Seq<u8>) -> Option<
    Seq<(Seq<char>, Seq<(Seq<char>, u64)>)>,
>;

/// The JSON text that `serde_json` writes for an index, documents and terms
/// in ascending order.
pub uninterp spec fn json_text(docs: Map<Seq<char>, Map<Seq<char>, nat>>) -> Seq<u8>;

/// Trusted: `serde_json::from_reader` on an in-memory text, read into ordered
/// maps from strings to maps from strings to `u64`. The answer depends on
/// the bytes alone; the maps are handed on pair by pair, in their own order.
#[verifier::external_body]
fn read_json(bytes: &[u8]) -> (parsed: Result<
    Vec<(String, Vec<(String, u64)>)>,
    serde_json::Error,
>)
    ensures
        match parsed {
            Ok(entries) => json_entries(bytes@) == Some(entries.deep_view()),
            Err(_) => json_entries(bytes@) is None,
        },
{
    let docs: BTreeMap<String, BTreeMap<String, u64>> = serde_json::from_reader(bytes)?;
    Ok(docs.into_iter().map(|(doc, counts)| (doc, counts.into_iter().collect())).collect())
}

/// Trusted: `serde_json::to_writer` into a buffer, on the entries gathered
/// into ordered maps. No key is listed twice, so the maps hold exactly the
/// listed pairs, which is `index_of` of the entries, and the text depends on
/// nothing but those maps. The call succeeds: writing fails only where the
/// writer fails or a key is no string, and here the writer is memory and
/// every key is a string.
#[verifier::external_body]
fn write_json(entries: &Vec<(String, Vec<(String, u64)>)>) -> (written: Result<
    Vec<u8>,
    serde_json::Error,
>)
    requires
        distinct_documents(entries.deep_view()),
    ensures
        written is Ok,
        written matches Ok(bytes) ==> bytes@ == json_text(index_of(entries.deep_view())),
{
    let docs: BTreeMap<&String, BTreeMap<&String, u64>> = entries.iter().map(
        |(doc, counts)| (doc, counts.iter().map(|(term, n)| (term, *n)).collect()),
    ).collect();
    let mut bytes: Vec<u8> = Vec::new();
    serde_json::to_writer(&mut bytes, &docs)?;
    Ok(bytes)
}

/// The JSON text that `serde_json` writes for a list of strings.
pub uninterp spec fn json_list_text(items: Seq<Seq<char>>) -> Seq<char>;

/// Trusted: `serde_json::to_string` on a list of strings. The text depends on
/// the strings alone. The call succeeds: writing fails only where the writer
/// fails or a map has a key that is no string, and here the writer is memory
/// and there is no map.
#[verifier::external_body]
fn write_json_list(items: &Vec<String>) -> (written: Result<String, serde_json::Error>)
    ensures
        written is Ok,
        written matches Ok(text) ==> text@ == json_list_text(items.deep_view()),
{
    serde_json::to_string(items)
}

/// Writes a list of strings as a JSON array: the text that `serde_json`
/// writes for the list. It does not fail.
pub fn save_list(items: &Vec<String>) -> (saved: Result<String, EncodeError>)
    ensures
        saved matches Ok(text) && text@ == json_list_text(items.deep_view()),
{
    match write_json_list(items) {
        Ok(text) => Ok(text),
        Err(err) => Err(EncodeError { message: json_error_text(&err) }),
    }
}

/// Trusted: `serde_json::Error::line`, the line that the error was found at.
/// Nothing is claimed of the number.
pub assume_specification[ serde_json::Error::line ](err: &serde_json::Error) -> (line: usize);

/// Trusted: `serde_json::Error::column`, the column that the error was found
/// at. Nothing is claimed of the number.
pub assume_specification[ serde_json::Error::column ](err: &serde_json::Error) -> (column:
    usize);

/// Trusted: the error's own description, as its `Display` writes it. Nothing
/// is claimed of the text.
#[verifier::external_body]
fn json_error_text(err: &serde_json::Error) -> (text: String) {
    format!("{}", err)
}

/// Why a durable index could not be read.
#[derive(Clone, Debug, PartialEq, Eq)]
pub struct ParseError {
    /// The line of the text at which reading stopped, counted from one.
    pub line: usize,
    /// The column in that line.
    pub column: usize,
    /// What was wrong there.
    pub message: String,
}

/// Why an index could not be written.
#[derive(Clone, Debug, PartialEq, Eq)]
pub struct EncodeError {
    /// What went wrong.
    pub message: String,
}

/// Reads an index from its durable form. Reading is strict: a text that is
/// not an object of objects of unsigned counts is refused as a whole, and
/// nothing of it is kept.
pub fn load(bytes: &[u8]) -> (loaded: Result<TermFreqIndex, ParseError>)
    ensures
        match json_entries(bytes@) {
            Some(entries) => loaded matches Ok(index) && index.wf() && index@ == index_of(entries),
            None => loaded is Err,
        },
{
    match read_json(bytes) {
        Ok(entries) => Ok(TermFreqIndex::from_entries(&entries)),
        Err(err) => Err(
            ParseError { line: err.line(), column: err.column(), message: json_error_text(&err) },
        ),
    }
}

/// Whether the durable form of an index reads back as that index: what
/// `serde_json` writes for it is a text that `serde_json` reads, and what is
/// read holds the same documents with the same profiles.
pub open spec fn reads_back(docs: Map<Seq<char>, Map<Seq<char>, nat>>) -> bool {
    json_entries(json_text(docs)) matches Some(entries) && index_of(entries) == docs
}

/// Writes an index in its durable form: the text that `serde_json` writes
/// for the index as a map, whatever the order in which its documents came.
/// Before the text is handed out it is read back and held against the index.
/// A text is handed out only if it reads back as the very index that was
/// written; otherwise the call fails.
pub fn save(index: &TermFreqIndex) -> (saved: Result<Vec<u8>, EncodeError>)
    requires
        index.wf(),
    ensures
        saved is Ok <==> reads_back(index@),
        saved matches Ok(bytes) ==> bytes@ == json_text(index@),
{
    let entries = index.to_entries();
    let bytes = match write_json(&entries) {
        Ok(bytes) => bytes,
        Err(err) => {
            return Err(EncodeError { message: json_error_text(&err) });
        },
    };
    match read_json(bytes.as_slice()) {
        Ok(back) => {
            let reread = TermFreqIndex::from_entries(&back);
            if index.same_as(&reread) {
                Ok(bytes)
            } else {
                Err(EncodeError { message: "the text does not read back as the index".to_owned() })
            }
        },
        Err(err) => Err(EncodeError { message: json_error_text(&err) }),
    }
}

/// Round-trip fidelity: a text that `save` hands out for an index is one from
/// which `load` rebuilds an index with the same documents and the same
/// profiles.
pub proof fn lemma_load_reads_what_save_wrote(
    docs: Map<Seq<char>, Map<Seq<char>, nat>>,
    bytes: Seq<u8>,
)
    requires
        reads_back(docs),
        bytes == json_text(docs),
    ensures
        json_entries(bytes) matches Some(entries) && index_of(entries) == docs,
{
}

} // verus!
