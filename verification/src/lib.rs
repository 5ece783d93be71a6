//! A delimiter-symmetric swap engine over a lossless concrete syntax tree.
//!
//! Given a cursor offset that sits on a separator token inside a delimited
//! list (the running example: a `+` inside a trait-bound list), the engine
//! finds the two non-trivia elements adjacent to the separator and produces
//! a minimal text edit that swaps their source text in place, keeping the
//! cursor anchored on the separator.

pub mod attrs;
pub mod edit;
pub mod flip;
pub mod sibling;
pub mod text;
pub mod tree;

pub use edit::Edit;
pub use edit::Replacement;
pub use flip::flip_trait_bound;
pub use sibling::Direction;
pub use text::TextRange;
pub use tree::Element;
pub use tree::SyntaxKind;
pub use tree::SyntaxTree;
