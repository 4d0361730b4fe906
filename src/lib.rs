//! Reference search for a language-server backend: resolve the name under a
//! cursor to one definition, then gather and classify its occurrences.
//!
//! The syntax and semantic answers the search reads come in as an immutable
//! [`analysis::Analysis`] snapshot; [`references::find_all_refs`] is the entry
//! point. For tests built on the search, [`markup`] reads cursor markers out
//! of texts and [`pattern::lines_match`] compares output lines with wildcard
//! patterns.
pub mod analysis;
pub mod defs;
pub mod markup;
pub mod paths;
pub mod pattern;
pub mod references;
pub mod syntax;
pub mod text;

pub use analysis::{Analysis, NavEntry, SourceFile, Usage};
pub use defs::{Definition, NavigationTarget, Reference, ReferenceAccess, ReferenceKind, ScopeEntry, SearchScope};
pub use references::{find_all_refs, Declaration, RangeInfo, ReferenceSearchResult};
pub use syntax::{Element, SyntaxKind, SyntaxTree};
pub use text::{FileId, FilePosition, FileRange, TextRange};
