//! Encoder for HiPack, a relaxed JSON-like text format with bare mapping keys,
//! capitalised booleans and floats that always carry a decimal point.
//!
//! A [`Value`] graph is rendered either on one line ([`to_vec`]) or indented
//! for reading ([`to_vec_pretty`]). Every function states the exact bytes it
//! produces.

pub mod error;
pub mod format;
pub mod laws;
pub mod scalar;
pub mod ser;
pub mod value;

pub use error::{Cause, Error, ErrorCode};
pub use format::{CompactFormatter, Formatter, PrettyFormatter};
pub use ser::{to_vec, to_vec_pretty, to_writer, to_writer_pretty, Serializer};
pub use value::Value;
