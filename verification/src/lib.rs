//! Decoder for a densely packed trace-record line format.
//!
//! Each input line describes one traced function call: a numeric identifier,
//! an optional parent identifier and parent class name, the class and function
//! names, and two length-prefixed lists of opaque fields ("state" and
//! "arguments").  The decoder is a recursive-descent parser built from a small
//! set of zero-copy cursor primitives; it performs no I/O and keeps no state
//! across lines.

pub mod chars;
pub mod class;
pub mod cursor;
pub mod encode;
pub mod error;
pub mod line;
pub mod list;
pub mod model;
pub mod number;

pub use class::parse_class_name;
pub use cursor::pop_separator;
pub use cursor::take_n_characters;
pub use cursor::take_until;
pub use cursor::take_until_whitespace;
pub use error::DecodeError;
pub use line::parse;
pub use list::parse_state;
pub use model::ClassNameInfo;
pub use model::DecodedRecord;
pub use number::parse_number;
