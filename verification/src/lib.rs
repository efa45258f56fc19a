//! A gitignore-style path pattern engine: compiling one pattern line into a
//! `Pattern` (glob text plus mode flags) and deciding whether a compiled
//! pattern matches a repository-relative path, with shell-glob wildcards,
//! directory-boundary rules and optional ASCII case folding.

pub mod id;
pub mod pattern;
pub mod wildmatch;

pub use crate::id::Id;
pub use crate::pattern::{Mode, ParseError, Pattern};
pub use crate::wildmatch::Case;
