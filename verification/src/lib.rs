//! A lexical indexing engine: a Unicode-aware tokenizer, per-document term
//! frequencies, a corpus-wide index with its durable JSON form, the decisions
//! of a recursive corpus walk, and the decisions of a small query front-end.
//!
//! Every function here is verified against its contract. The few places where
//! the crate leans on code it cannot see (the character tables of the standard
//! library, the JSON codec) are marked as such where they stand. Documents are
//! parsed outside the crate; it takes their events and makes text of them.

pub mod chars;
pub mod corpus;
pub mod extract;
pub mod index;
pub mod lexer;
pub mod query;
pub mod store;
pub mod table;
pub mod term_freq;
pub mod text;
pub mod walk;
