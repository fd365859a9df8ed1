//! The configuration document a keymap is loaded from.

use vstd::prelude::*;

verus! {

/// A configuration document: a loosely typed tree of objects, arrays and
/// strings. Whatever is none of these is `Other`.
#[derive(Debug)]
pub enum Config {
    /// Key/value pairs, in document order.
    Object(Vec<(String, Config)>),
    /// A list of documents.
    Array(Vec<Config>),
    /// A string.
    Text(String),
    /// A number, a boolean or null.
    Other,
}

/// Mathematical model of a [`Config`].
pub ghost enum ConfigValue {
    Object(Seq<(Seq<char>, ConfigValue)>),
    Array(Seq<ConfigValue>),
    Text(Seq<char>),
    Other,
}

/// The models of the first `n` pairs of an object, each under its key.
pub open spec fn entries_model(entries: Seq<(String, Config)>, n: nat) -> Seq<
    (Seq<char>, ConfigValue),
>
    decreases entries, n,
{
    if n == 0 || n > entries.len() {
        Seq::empty()
    } else {
        entries_model(entries, (n - 1) as nat).push((entries[n - 1].0@, entries[n - 1].1.model()))
    }
}

/// The models of the first `n` items of an array.
pub open spec fn items_model(items: Seq<Config>, n: nat) -> Seq<ConfigValue>
    decreases items, n,
{
    if n == 0 || n > items.len() {
        Seq::empty()
    } else {
        items_model(items, (n - 1) as nat).push(items[n - 1].model())
    }
}

impl Config {
    /// The document as a mathematical value.
    pub open spec fn model(&self) -> ConfigValue
        decreases self,
    {
        match self {
            Config::Object(entries) => ConfigValue::Object(
                entries_model(entries@, entries@.len()),
            ),
            Config::Array(items) => ConfigValue::Array(items_model(items@, items@.len())),
            Config::Text(text) => ConfigValue::Text(text@),
            Config::Other => ConfigValue::Other,
        }
    }
}

impl View for Config {
    type V = ConfigValue;

    open spec fn view(&self) -> ConfigValue {
        self.model()
    }
}

/// The model of an object holds one pair for each pair of the object, in
/// the same order.
pub proof fn lemma_entries_model(entries: Seq<(String, Config)>, n: nat)
    requires
        n <= entries.len(),
    ensures
        entries_model(entries, n).len() == n,
        forall|i: int|
            0 <= i < n ==> #[trigger] entries_model(entries, n)[i] == (
                entries[i].0@,
                entries[i].1@,
            ),
    decreases n,
{
    if n > 0 {
        lemma_entries_model(entries, (n - 1) as nat);
    }
}

/// The model of an array holds one item for each item of the array, in the
/// same order.
pub proof fn lemma_items_model(items: Seq<Config>, n: nat)
    requires
        n <= items.len(),
    ensures
        items_model(items, n).len() == n,
        forall|i: int| 0 <= i < n ==> #[trigger] items_model(items, n)[i] == items[i]@,
    decreases n,
{
    if n > 0 {
        lemma_items_model(items, (n - 1) as nat);
    }
}

} // verus!
