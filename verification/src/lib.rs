//! Abbreviation expansion: a trie of mnemonic sequences and the resolver that
//! turns the text before a cursor into positioned replacement suggestions.

pub mod completion;
pub mod config;
pub mod documents;
pub mod json;
pub mod keymap;
pub mod text;
pub mod trie;
