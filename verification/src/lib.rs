//! Symbol indexing, completion and canonical formatting for beancount
//! ledgers, with contracts that Verus proves.
//!
//! A ledger text is parsed by tree-sitter with the beancount grammar
//! ([`grammar`]) into a syntax tree of plain values ([`syntax`]). From the
//! tree come the symbol index of the ledger and of what it includes
//! ([`index`], [`loader`], [`paths`]), the tries over its accounts and currencies
//! ([`trie`]), the completions at a cursor ([`completion`]) and the
//! canonical text ([`reformat`]). [`diagnostics`] reads the messages of a
//! ledger validator.

pub mod collections;
pub mod completion;
pub mod diagnostics;
pub mod error;
pub mod grammar;
pub mod index;
pub mod loader;
pub mod paths;
pub mod reformat;
pub mod syntax;
pub mod text;
pub mod trie;

pub use error::Error;
pub use index::Data;
pub use reformat::reformat;
