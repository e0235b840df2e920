//! Hides the values of chosen fields in a JSON document.
//!
//! A key storage holds the names of the fields whose values are not to be shown. The
//! redaction walks a document and puts, under each such name, a string that tells only what
//! kind of value stood there; it keeps every key, every length and the order of both.

pub mod batch;
pub mod config;
pub mod error;
pub mod hide_args;
pub mod json;
pub mod keys_storage;
pub mod redaction;
pub mod string_set;
pub mod words_storage;
