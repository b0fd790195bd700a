//! A JSON document shown as a read-only tree of directories and files.
//!
//! Objects and arrays are directories, every other value is a file whose
//! content is the value's text. The library answers two questions about a
//! document: which entries lie under a path, and which bytes a file holds.

pub mod decimal;
pub mod document;
pub mod entry;
pub mod json;
pub mod path;
pub mod provider;
pub mod render;
pub mod resolve;
pub mod trim;

pub use document::{parse_json_object, ParseError};
pub use entry::DirectoryEntry;
pub use json::JsonValue;
pub use path::VirtualPath;
pub use provider::{JsonProvider, ReadError};
