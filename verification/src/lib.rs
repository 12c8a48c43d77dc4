//! A verified pandoc-style document filter library.
//!
//! The library models a document as a closed family of recursive sum
//! types (`types`), maps documents to and from a tagged JSON-like wire
//! value (`encode`, `decode`, `value`), writes wire values as canonical
//! JSON text (`write`), and rewrites document trees by applying a
//! caller-supplied transform to every node of a chosen kind (`walk`).
//! `json` holds the text-level filter pipeline and the conversions
//! between the two tagged object shapes; `metamap` keeps metadata
//! mappings canonically sorted; `laws` states and proves the library's
//! guarantees: decoding inverts encoding, metadata encoding depends only
//! on the denoted mapping, and identity walks change nothing.

pub mod decode;
pub mod encode;
pub mod examples;
pub mod json;
pub mod laws;
pub mod metamap;
pub mod model;
pub mod strutil;
pub mod types;
pub mod value;
pub mod walk;
pub mod write;
