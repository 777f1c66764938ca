//! Core of a multi-document text editor: document buffers with dirty
//! tracking, a document set with an active document, selection duplication,
//! capped text search over a file-tree snapshot, and syntax highlighting
//! into styled spans.
//!
//! Every contract is stated over mathematical models: a text is a
//! `Seq<char>` (or the `Seq<u8>` of its UTF-8 encoding where offsets are byte
//! offsets), and each data type has a view.

pub mod document;
pub mod document_set;
pub mod highlight;
pub mod paths;
pub mod search;
pub mod selection;
pub mod text;
