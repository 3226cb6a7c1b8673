//! Retrieval core of a multilingual dictionary lookup service.
//!
//! Given a free-text query, the library returns the dictionary entries most
//! relevant to it, ranked, even when the query contains typos or only partial
//! character overlap with the indexed terms. It is built from four in-memory
//! index structures — a term dictionary, a fuzzy term corrector, a posting
//! index scored by cosine similarity, and a character posting index — all
//! loaded once and then only read.

pub mod corrector;
pub mod edit_distance;
pub mod engine;
pub mod error;
pub mod index;
pub mod inflection;
pub mod language;
pub mod query;
pub mod ranking;
pub mod regex_index;
pub mod term_dict;
pub mod text;
pub mod vector;
