//! Keymaps from JSON text.

use crate::config::{Config, ConfigValue};
use crate::keymap::Keymap;
use crate::trie::trie_of;
use vstd::prelude::*;

verus! {

/// `serde_json::Value`, a parsed JSON value. Nothing inside it is seen
/// here.
#[verifier::external_type_specification]
#[verifier::external_body]
pub struct ExValue(serde_json::Value);

/// `serde_json::Error`, the parser's error. Nothing inside it is seen
/// here.
#[verifier::external_type_specification]
#[verifier::external_body]
pub struct ExError(serde_json::Error);

/// The document that `text` is the JSON notation of; `None` where `text`
/// is no JSON.
pub uninterp spec fn json_document(text: Seq<char>) -> Option<ConfigValue>;

/// `serde_json::Error::line`: the line at which parsing stopped. Nothing
/// is claimed of it.
pub assume_specification[ serde_json::Error::line ](error: &serde_json::Error) -> usize;

/// `serde_json::Error::column`: the column at which parsing stopped.
/// Nothing is claimed of it.
pub assume_specification[ serde_json::Error::column ](error: &serde_json::Error) -> usize;

/// The JSON value `value` as a document: an object with its pairs in the
/// order in which the value holds them, an array with its items, a string;
/// a number, a boolean and null as `Other`.
#[verifier::external_body]
fn config_of_value(value: &serde_json::Value) -> Config {
    match value {
        serde_json::Value::Object(entries) => Config::Object(
            entries.iter().map(|(key, below)| (key.clone(), config_of_value(below))).collect(),
        ),
        serde_json::Value::Array(items) => Config::Array(
            items.iter().map(config_of_value).collect(),
        ),
        serde_json::Value::String(text) => Config::Text(text.clone()),
        _ => Config::Other,
    }
}

/// `serde_json::from_str`, for a `serde_json::Value`: the document that
/// `text` denotes, or the parser's error where `text` is no JSON. The same
/// text always gives the same document.
#[verifier::external_body]
fn parse_json(text: &str) -> (parsed: Result<Config, serde_json::Error>)
    ensures
        match parsed {
            Ok(config) => json_document(text@) == Some(config@),
            Err(_) => json_document(text@) is None,
        },
{
    match serde_json::from_str::<serde_json::Value>(text) {
        Ok(value) => Ok(config_of_value(&value)),
        Err(error) => Err(error),
    }
}

/// Why a text gave no keymap.
#[derive(Debug, Clone, Copy, PartialEq, Eq, Structural)]
pub enum ConfigError {
    /// The text is no JSON; parsing stopped at this line and column.
    Syntax { line: usize, column: usize },
}

/// The keymap that the JSON text `text` denotes. It fails exactly where
/// `text` is no JSON; JSON of any shape gives a keymap.
pub fn load_keymap(text: &str) -> (loaded: Result<Keymap, ConfigError>)
    ensures
        match loaded {
            Ok(keymap) => json_document(text@) matches Some(document) && keymap@ == trie_of(
                document,
            ) && keymap@.wf(),
            Err(_) => json_document(text@) is None,
        },
{
    match parse_json(text) {
        Ok(config) => Ok(Keymap::new(config)),
        Err(error) => Err(ConfigError::Syntax { line: error.line(), column: error.column() }),
    }
}

} // verus!
