//! Encoder from a generic tree value (the JSON data model) to TOON, a compact
//! indentation-based text notation.

pub mod options;
pub mod encode;
pub mod json;
pub mod text;
pub mod value;
pub mod laws;
pub mod number;

pub use encode::encode_toon;
pub use options::{Delimiter, KeyFolding, ToonOptions};
pub use value::{Number, Value};
