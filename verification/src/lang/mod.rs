//! Source files and the languages they are written in.

pub mod language;
pub mod path;
pub mod source_file;
