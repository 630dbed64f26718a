//! A lexical scanner for a single BibTeX entry.
//!
//! [`tokenize`] turns text such as `@article{key, title = "T",}` into a
//! sequence of [`Token`]s. Its behaviour is stated over the character-level
//! model in [`scanner`], and the general properties of that model are proved
//! in [`laws`].
pub mod laws;
pub mod scanner;
pub mod text;
pub mod token;

pub use scanner::tokenize;
pub use token::{BibtexError, Token, TokenName};
