//! Reduction of annotated C preprocessor output to a compact single file.
//!
//! A unit is read line by line: header directives of the trace, line markers
//! and other text. A first pass gathers every path that a marker enters; a
//! second keeps all markers, drops the body of system headers and drops the
//! directives that a local header of the same name has made redundant.
pub mod command;
pub mod error;
pub mod expanded_header;
pub mod file_kind;
pub mod included_header;
pub mod path_like;
pub mod preprocessor;
pub mod text;

pub use error::Error;
pub use expanded_header::ExpandedHeader;
pub use included_header::IncludedHeader;
pub use path_like::{path_ends_with, PathLike};
pub use preprocessor::{Line, Preprocessor};
