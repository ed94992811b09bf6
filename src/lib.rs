//! Descriptions of files and directories: exact descriptions keyed by path, and
//! patterns that describe the children of a directory.
pub mod command;
pub mod describer;
pub mod json;
pub mod text_map;

pub use command::{parse, InvokedTo};
pub use describer::Describer;
pub use json::{DeserializeError, SerializeError};
